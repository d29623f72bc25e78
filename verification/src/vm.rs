//! The stack machine that executes a chunk.
//!
//! The machine does everything but round: when an instruction needs the
//! sum, difference, product or quotient of two numbers it stops and hands
//! the operands to its host, which answers with the result.

use vstd::prelude::*;
use vstd::string::StringExecFns;
use crate::audit::{audit, faulty_from, kinds_of, lemma_check_abstracts_step, Kind};
use crate::chunk::Chunk;
use crate::instruction::Instruction;
use crate::machine::{run, Arith, Outcome};
use crate::value::{Datum, Number, ObjValue, Value};

verus! {

/// The two ways in which source text fails to produce a value.
#[derive(Debug, Clone, Copy, PartialEq, Eq, Structural)]
pub enum InterpretError {
    CompileError,
    RuntimeError,
}

/// A request to the host: compute `lhs op rhs`.
#[derive(Debug, Clone, Copy)]
pub struct Operation {
    pub op: Arith,
    pub lhs: Number,
    pub rhs: Number,
}

/// How a run of the machine ends short of an error.
#[derive(Debug)]
pub enum Progress {
    /// `OpReturn` was executed and popped this value.
    Returned(Value),
    /// The machine waits for the result of this operation; `resume` takes
    /// it.
    Pending(Operation),
}

/// The machine: an instruction pointer and an operand stack.
pub struct Vm {
    ip: usize,
    stack: Vec<Value>,
}

impl Vm {
    /// The index of the instruction to execute next.
    pub closed spec fn pointer(self) -> int {
        self.ip as int
    }

    /// The operand stack, top last.
    pub closed spec fn operands(self) -> Seq<Datum> {
        Seq::new(self.stack@.len(), |i: int| self.stack@[i]@)
    }

    /// Whether the machine can run `chunk` from its start without meeting
    /// a faulty instruction.
    pub open spec fn admits(chunk: Chunk) -> bool {
        !faulty_from(chunk.code(), kinds_of(chunk.pool()), 0, Seq::empty())
    }

    /// Whether the machine can go on in `chunk` from where it stands, once
    /// a number has been pushed, without meeting a faulty instruction.
    pub open spec fn awaits(self, chunk: Chunk) -> bool {
        !faulty_from(
            chunk.code(),
            kinds_of(chunk.pool()),
            self.pointer(),
            kinds_of(self.operands()).push(Kind::Number),
        )
    }

    /// Whether the result `result` and the machine `self` are what a run
    /// with the outcome `outcome` leaves.
    pub open spec fn reflects(
        self,
        result: Result<Progress, InterpretError>,
        outcome: Outcome,
        chunk: Chunk,
    ) -> bool {
        match outcome {
            Outcome::Returned { value, stack } => {
                &&& result matches Ok(Progress::Returned(returned))
                &&& returned@ == value
                &&& self.operands() == stack
            },
            Outcome::Pending { op, lhs, rhs, ip, stack } => {
                &&& result matches Ok(Progress::Pending(operation))
                &&& operation.op == op
                &&& operation.lhs == lhs
                &&& operation.rhs == rhs
                &&& self.pointer() == ip
                &&& self.operands() == stack
                &&& self.awaits(chunk)
            },
            Outcome::RuntimeError => result == Err::<Progress, InterpretError>(
                InterpretError::RuntimeError,
            ),
            Outcome::Fault => false,
        }
    }

    pub fn new() -> (vm: Vm)
        ensures
            vm.pointer() == 0,
            vm.operands() == Seq::<Datum>::empty(),
    {
        Vm { ip: 0, stack: Vec::new() }
    }

    /// The number of values on the operand stack.
    pub fn stack_depth(&self) -> (depth: usize)
        ensures
            depth == self.operands().len(),
    {
        self.stack.len()
    }

    /// Runs `chunk` from its first instruction with an empty stack, up to
    /// its `OpReturn`, an error, or the first operation that the host has
    /// to compute.
    pub fn interpret(&mut self, chunk: &Chunk) -> (result: Result<Progress, InterpretError>)
        requires
            Vm::admits(*chunk),
        ensures
            final(self).reflects(
                result,
                run(chunk.code(), chunk.pool(), 0, Seq::empty()),
                *chunk,
            ),
    {
        self.ip = 0;
        self.stack.clear();
        assert(self.operands() =~= Seq::empty());
        assert(kinds_of(self.operands()) =~= Seq::empty());
        self.run(chunk)
    }

    /// Goes on after a `Pending`: pushes `answer`, the result of the
    /// operation that the machine asked for, and runs on as `interpret`
    /// does.
    pub fn resume(&mut self, chunk: &Chunk, answer: Number) -> (result: Result<
        Progress,
        InterpretError,
    >)
        requires
            old(self).awaits(*chunk),
        ensures
            final(self).reflects(
                result,
                run(
                    chunk.code(),
                    chunk.pool(),
                    old(self).pointer(),
                    old(self).operands().push(Datum::Number(answer)),
                ),
                *chunk,
            ),
    {
        self.push(Value::Number(answer));
        assert(kinds_of(self.operands()) =~= kinds_of(old(self).operands()).push(Kind::Number));
        self.run(chunk)
    }

    fn push(&mut self, value: Value)
        ensures
            final(self).ip == old(self).ip,
            final(self).operands() == old(self).operands().push(value@),
    {
        self.stack.push(value);
        assert(self.operands() =~= old(self).operands().push(value@));
    }

    fn pop(&mut self) -> (value: Value)
        requires
            old(self).operands().len() > 0,
        ensures
            final(self).ip == old(self).ip,
            value@ == old(self).operands().last(),
            final(self).operands() == old(self).operands().drop_last(),
    {
        let value = self.stack.pop().unwrap();
        assert(self.operands() =~= old(self).operands().drop_last());
        value
    }

    fn run(&mut self, chunk: &Chunk) -> (result: Result<Progress, InterpretError>)
        requires
            !faulty_from(
                chunk.code(),
                kinds_of(chunk.pool()),
                old(self).pointer(),
                kinds_of(old(self).operands()),
            ),
        ensures
            final(self).reflects(
                result,
                run(chunk.code(), chunk.pool(), old(self).pointer(), old(self).operands()),
                *chunk,
            ),
    {
        let ghost code = chunk.code();
        let ghost pool = chunk.pool();
        let ghost target = run(code, pool, self.pointer(), self.operands());
        let count = chunk.instructions_count();
        loop
            invariant
                code == chunk.code(),
                pool == chunk.pool(),
                count == code.len(),
                target == run(code, pool, old(self).pointer(), old(self).operands()),
                run(code, pool, self.pointer(), self.operands()) == target,
                !faulty_from(code, kinds_of(pool), self.pointer(), kinds_of(self.operands())),
            decreases code.len() - self.ip,
        {
            let ghost before = self.operands();
            let ghost depth = before.len() as int;
            let instruction = match chunk.instruction_at(self.ip) {
                Some(instruction) => *instruction,
                None => {
                    return Err(InterpretError::RuntimeError);
                },
            };
            proof {
                lemma_check_abstracts_step(instruction, pool, before);
            }
            self.ip += 1;
            match instruction {
                Instruction::OpReturn => {
                    let value = self.pop();
                    assert(before.drop_last() =~= before.take(depth - 1));
                    return Ok(Progress::Returned(value));
                },
                Instruction::OpConstant(index) => {
                    let value = chunk.constant_at(index);
                    self.push(value.clone());
                },
                Instruction::OpNegate => {
                    let next_value = self.pop();
                    assert(before.drop_last() =~= before.take(depth - 1));
                    match next_value {
                        Value::Number(number) => {
                            let result = number.negate();
                            self.push(Value::from(result));
                        },
                        _ => {
                            return Err(InterpretError::RuntimeError);
                        },
                    }
                },
                Instruction::OpSubtract | Instruction::OpMultiply | Instruction::OpDivide => {
                    let b = self.pop();
                    let a = self.pop();
                    assert(before.drop_last().drop_last() =~= before.take(depth - 2));
                    match (b, a) {
                        (Value::Number(b), Value::Number(a)) => {
                            let op = match instruction {
                                Instruction::OpSubtract => Arith::Subtract,
                                Instruction::OpDivide => Arith::Divide,
                                _ => Arith::Multiply,
                            };
                            assert(kinds_of(self.operands()).push(Kind::Number) =~= kinds_of(
                                self.operands().push(Datum::Number(Number { bits: 0 })),
                            ));
                            return Ok(Progress::Pending(Operation { op, lhs: a, rhs: b }));
                        },
                        _ => {
                            return Err(InterpretError::RuntimeError);
                        },
                    }
                },
                Instruction::OpAdd => {
                    let b = self.pop();
                    let a = self.pop();
                    assert(before.drop_last().drop_last() =~= before.take(depth - 2));
                    match (b, a) {
                        (Value::Number(b), Value::Number(a)) => {
                            assert(kinds_of(self.operands()).push(Kind::Number) =~= kinds_of(
                                self.operands().push(Datum::Number(Number { bits: 0 })),
                            ));
                            return Ok(
                                Progress::Pending(Operation { op: Arith::Add, lhs: a, rhs: b }),
                            );
                        },
                        (Value::Obj(b), Value::Obj(a)) => match (b.value, a.value) {
                            (ObjValue::String(b), ObjValue::String(a)) => {
                                self.push(Value::from(a.concat(b.as_str())));
                            },
                        },
                        _ => {
                            return Err(InterpretError::RuntimeError);
                        },
                    }
                },
                Instruction::OpTrue => {
                    self.push(Value::from(true));
                },
                Instruction::OpFalse => {
                    self.push(Value::from(false));
                },
                Instruction::OpNil => {
                    self.push(Value::Nil);
                },
                Instruction::OpNot => {
                    let value = self.pop();
                    assert(before.drop_last() =~= before.take(depth - 1));
                    self.push(Value::from(value.is_falsey()));
                },
                Instruction::OpEqual => {
                    let b = self.pop();
                    let a = self.pop();
                    assert(before.drop_last().drop_last() =~= before.take(depth - 2));
                    self.push(Value::from(a == b));
                },
                Instruction::OpGreater | Instruction::OpLess => {
                    let b = self.pop();
                    let a = self.pop();
                    assert(before.drop_last().drop_last() =~= before.take(depth - 2));
                    match (b, a) {
                        (Value::Number(b), Value::Number(a)) => {
                            let result = match instruction {
                                Instruction::OpGreater => a.greater_than(&b),
                                _ => a.less_than(&b),
                            };
                            self.push(Value::from(result));
                        },
                        _ => {
                            return Err(InterpretError::RuntimeError);
                        },
                    }
                },
            }
        }
    }

    /// Whether `interpret` can run `chunk`.
    pub fn accepts(chunk: &Chunk) -> (r: bool)
        ensures
            r == Vm::admits(*chunk),
    {
        audit(chunk, 0, Vec::new())
    }

    /// Whether `resume` can go on in `chunk` from where the machine
    /// stands.
    pub fn can_resume(&self, chunk: &Chunk) -> (r: bool)
        ensures
            r == self.awaits(*chunk),
    {
        let mut kinds: Vec<Kind> = Vec::new();
        let mut i: usize = 0;
        while i < self.stack.len()
            invariant
                i <= self.stack@.len(),
                kinds@ == kinds_of(self.operands()).take(i as int),
            decreases self.stack@.len() - i,
        {
            kinds.push(self.stack[i].kind());
            assert(kinds@ =~= kinds_of(self.operands()).take(i + 1));
            i += 1;
        }
        assert(kinds@ =~= kinds_of(self.operands()));
        kinds.push(Kind::Number);
        audit(chunk, self.ip, kinds)
    }
}

} // verus!
