//! The instruction set of the stack machine.

use vstd::prelude::*;

verus! {

/// One instruction. Only `OpConstant` has an operand: an index into the
/// constant pool of the chunk that holds the instruction.
#[derive(Debug, Clone, Copy, PartialEq, Eq, Structural)]
pub enum Instruction {
    OpReturn,
    OpConstant(usize),
    OpNegate,
    OpAdd,
    OpSubtract,
    OpMultiply,
    OpDivide,
    OpTrue,
    OpFalse,
    OpNil,
    OpNot,
    OpEqual,
    OpGreater,
    OpLess,
}

} // verus!
