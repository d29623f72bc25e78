//! The listing of a chunk for its readers: one line of text for each
//! instruction.

use vstd::prelude::*;
use vstd::string::StringSliceAdditionalSpecFns;
use crate::chunk::Chunk;
use crate::instruction::Instruction;
use crate::text::{
    append, append_left_aligned, append_right_aligned, decimal, decimal_digits, left_aligned,
    right_aligned,
};

verus! {

/// The name of an instruction.
pub open spec fn mnemonic(instruction: Instruction) -> Seq<u8> {
    match instruction {
        Instruction::OpReturn => "OpReturn".spec_bytes(),
        Instruction::OpConstant(_) => "OpConstant".spec_bytes(),
        Instruction::OpNegate => "OpNegate".spec_bytes(),
        Instruction::OpAdd => "OpAdd".spec_bytes(),
        Instruction::OpSubtract => "OpSubtract".spec_bytes(),
        Instruction::OpMultiply => "OpMultiply".spec_bytes(),
        Instruction::OpDivide => "OpDivide".spec_bytes(),
        Instruction::OpTrue => "OpTrue".spec_bytes(),
        Instruction::OpFalse => "OpFalse".spec_bytes(),
        Instruction::OpNil => "OpNil".spec_bytes(),
        Instruction::OpNot => "OpNot".spec_bytes(),
        Instruction::OpEqual => "OpEqual".spec_bytes(),
        Instruction::OpGreater => "OpGreater".spec_bytes(),
        Instruction::OpLess => "OpLess".spec_bytes(),
    }
}

/// The constant that an instruction loads, if it loads one.
pub open spec fn constant_of(instruction: Instruction) -> Option<usize> {
    match instruction {
        Instruction::OpConstant(index) => Some(index),
        _ => None,
    }
}

/// The line column of the instruction at `index`: the line in four
/// columns, or a bar where the instruction before it has the same line.
pub open spec fn line_column(lines: Seq<usize>, index: int) -> Seq<u8> {
    if index >= 1 && lines[index - 1] == lines[index] {
        "   | ".spec_bytes()
    } else {
        right_aligned(decimal(lines[index] as nat), 4, ' ' as u8) + " ".spec_bytes()
    }
}

/// What an instruction shows behind the line column: its name, and for
/// `OpConstant` the name in sixteen columns and the index in four.
pub open spec fn operation_column(instruction: Instruction) -> Seq<u8> {
    match instruction {
        Instruction::OpConstant(index) => left_aligned(mnemonic(instruction), 16, ' ' as u8)
            + right_aligned(decimal(index as nat), 4, ' ' as u8),
        _ => mnemonic(instruction),
    }
}

/// The text of the listing of the instruction at `index`: the index in
/// four digits, the line column and the operation column.
pub open spec fn listing_text(code: Seq<Instruction>, lines: Seq<usize>, index: int) -> Seq<u8> {
    right_aligned(decimal(index as nat), 4, '0' as u8) + " ".spec_bytes() + line_column(
        lines,
        index,
    ) + operation_column(code[index])
}

/// The title line of a listing.
pub open spec fn title(name: Seq<u8>) -> Seq<u8> {
    "== ".spec_bytes() + name + " ==".spec_bytes()
}

/// One line of a listing. Where `constant` holds an index, the reader
/// shows the value of that constant at the end of the line.
#[derive(Debug)]
pub struct Listing {
    pub text: Vec<u8>,
    pub constant: Option<usize>,
}

/// The listing of a chunk: a title and one line for each instruction.
#[derive(Debug)]
pub struct Disassembly {
    pub title: Vec<u8>,
    pub lines: Vec<Listing>,
}

fn mnemonic_of(instruction: &Instruction) -> (name: &'static str)
    ensures
        name.spec_bytes() == mnemonic(*instruction),
{
    match instruction {
        Instruction::OpReturn => "OpReturn",
        Instruction::OpConstant(_) => "OpConstant",
        Instruction::OpNegate => "OpNegate",
        Instruction::OpAdd => "OpAdd",
        Instruction::OpSubtract => "OpSubtract",
        Instruction::OpMultiply => "OpMultiply",
        Instruction::OpDivide => "OpDivide",
        Instruction::OpTrue => "OpTrue",
        Instruction::OpFalse => "OpFalse",
        Instruction::OpNil => "OpNil",
        Instruction::OpNot => "OpNot",
        Instruction::OpEqual => "OpEqual",
        Instruction::OpGreater => "OpGreater",
        Instruction::OpLess => "OpLess",
    }
}

/// The listing of a whole chunk under the title `name`.
pub fn disassemble(chunk: &Chunk, name: &str) -> (listing: Disassembly)
    ensures
        listing.title@ == title(name.spec_bytes()),
        listing.lines@.len() == chunk.code().len(),
        forall|i: int|
            0 <= i < chunk.code().len() ==> {
                &&& (#[trigger] listing.lines@[i]).text@ == listing_text(
                    chunk.code(),
                    chunk.line_table(),
                    i,
                )
                &&& listing.lines@[i].constant == constant_of(chunk.code()[i])
            },
{
    let mut title_text: Vec<u8> = Vec::new();
    append(&mut title_text, "== ".as_bytes());
    append(&mut title_text, name.as_bytes());
    append(&mut title_text, " ==".as_bytes());
    let mut lines: Vec<Listing> = Vec::new();
    let count = chunk.instructions_count();
    let mut i: usize = 0;
    while i < count
        invariant
            i <= count,
            count == chunk.code().len(),
            lines@.len() == i,
            forall|k: int|
                0 <= k < i ==> {
                    &&& (#[trigger] lines@[k]).text@ == listing_text(
                        chunk.code(),
                        chunk.line_table(),
                        k,
                    )
                    &&& lines@[k].constant == constant_of(chunk.code()[k])
                },
        decreases count - i,
    {
        lines.push(disassemble_instruction(chunk, i));
        i += 1;
    }
    Disassembly { title: title_text, lines }
}

/// The listing of the instruction at `index`.
pub fn disassemble_instruction(chunk: &Chunk, index: usize) -> (listing: Listing)
    requires
        index < chunk.code().len(),
    ensures
        listing.text@ == listing_text(chunk.code(), chunk.line_table(), index as int),
        listing.constant == constant_of(chunk.code()[index as int]),
{
    let count = chunk.instructions_count();
    let instruction = match chunk.instruction_at(index) {
        Some(instruction) => *instruction,
        None => Instruction::OpReturn,
    };
    let line = *chunk.line_at(index);
    let same_line = index >= 1 && *chunk.line_at(index - 1) == line;

    let mut text: Vec<u8> = Vec::new();
    append_right_aligned(&mut text, decimal_digits(index).as_slice(), 4, '0' as u8);
    append(&mut text, " ".as_bytes());
    if same_line {
        append(&mut text, "   | ".as_bytes());
    } else {
        append_right_aligned(&mut text, decimal_digits(line).as_slice(), 4, ' ' as u8);
        append(&mut text, " ".as_bytes());
    }
    let constant = match instruction {
        Instruction::OpConstant(operand) => {
            append_left_aligned(&mut text, mnemonic_of(&instruction).as_bytes(), 16, ' ' as u8);
            append_right_aligned(&mut text, decimal_digits(operand).as_slice(), 4, ' ' as u8);
            Some(operand)
        },
        _ => {
            append(&mut text, mnemonic_of(&instruction).as_bytes());
            None
        },
    };
    assert(text@ =~= listing_text(chunk.code(), chunk.line_table(), index as int));
    Listing { text, constant }
}

} // verus!
