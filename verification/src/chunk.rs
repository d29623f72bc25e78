//! A compiled unit: instructions, the source line of each, and a constant
//! pool.

use vstd::prelude::*;
use crate::instruction::Instruction;
use crate::value::{Datum, Value};

verus! {

/// Instructions with their source lines and the constants they refer to.
///
/// Each instruction is stored together with its line, so the instruction
/// stream and the line table always have the same length.
pub struct Chunk {
    entries: Vec<(Instruction, usize)>,
    constants: Vec<Value>,
}

impl Chunk {
    /// The instruction stream.
    pub closed spec fn code(self) -> Seq<Instruction> {
        Seq::new(self.entries@.len(), |i: int| self.entries@[i].0)
    }

    /// The source line of each instruction, by the instruction's index.
    pub closed spec fn line_table(self) -> Seq<usize> {
        Seq::new(self.entries@.len(), |i: int| self.entries@[i].1)
    }

    /// The constant pool, each constant by its view.
    pub closed spec fn pool(self) -> Seq<Datum> {
        Seq::new(self.constants@.len(), |i: int| self.constants@[i]@)
    }

    /// Every instruction has a line.
    pub proof fn lemma_parallel(self)
        ensures
            self.code().len() == self.line_table().len(),
    {
    }

    /// A chunk holds no more instructions or constants than a `usize`
    /// counts.
    pub proof fn lemma_counts_fit(self)
        ensures
            self.code().len() <= usize::MAX,
            self.pool().len() <= usize::MAX,
    {
        assert(self.entries.len() == self.entries@.len());
        assert(self.constants.len() == self.constants@.len());
    }

    pub fn new() -> (chunk: Chunk)
        ensures
            chunk.code() == Seq::<Instruction>::empty(),
            chunk.line_table() == Seq::<usize>::empty(),
            chunk.pool() == Seq::<Datum>::empty(),
    {
        Chunk { entries: Vec::new(), constants: Vec::new() }
    }

    /// A copy of the instruction stream.
    pub fn instructions(&self) -> (v: Vec<Instruction>)
        ensures
            v@ == self.code(),
    {
        let mut v: Vec<Instruction> = Vec::new();
        let mut i: usize = 0;
        while i < self.entries.len()
            invariant
                i <= self.entries@.len(),
                v@ == self.code().take(i as int),
            decreases self.entries@.len() - i,
        {
            v.push(self.entries[i].0);
            i += 1;
        }
        v
    }

    pub fn instruction_at(&self, index: usize) -> (r: Option<&Instruction>)
        ensures
            index < self.code().len() ==> r == Some(&self.code()[index as int]),
            index >= self.code().len() ==> r is None,
    {
        if index < self.entries.len() {
            Some(&self.entries[index].0)
        } else {
            None
        }
    }

    pub fn instructions_count(&self) -> (n: usize)
        ensures
            n == self.code().len(),
            n == self.line_table().len(),
    {
        self.entries.len()
    }

    pub fn add_instruction(&mut self, instruction: Instruction, line: usize)
        ensures
            final(self).code() == old(self).code().push(instruction),
            final(self).line_table() == old(self).line_table().push(line),
            final(self).pool() == old(self).pool(),
    {
        self.entries.push((instruction, line));
    }

    /// Appends a constant and returns its index. Equal constants are not
    /// shared: each call takes a new slot.
    pub fn add_constant(&mut self, constant: Value) -> (index: usize)
        ensures
            index == old(self).pool().len(),
            final(self).pool() == old(self).pool().push(constant@),
            final(self).code() == old(self).code(),
            final(self).line_table() == old(self).line_table(),
    {
        self.constants.push(constant);
        self.constants.len() - 1
    }

    pub fn constants_count(&self) -> (n: usize)
        ensures
            n == self.pool().len(),
    {
        self.constants.len()
    }

    pub fn constant_at(&self, index: usize) -> (v: &Value)
        requires
            index < self.pool().len(),
        ensures
            v@ == self.pool()[index as int],
    {
        &self.constants[index]
    }

    pub fn line_at(&self, index: usize) -> (line: &usize)
        requires
            index < self.line_table().len(),
        ensures
            *line == self.line_table()[index as int],
    {
        &self.entries[index].1
    }
}

} // verus!
