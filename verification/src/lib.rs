//! A bytecode compiler and stack machine for a small expression language.
//!
//! Source text is scanned into tokens ([`scanner`]), parsed by precedence
//! climbing and compiled in a single pass ([`compiler`]) into a [`Chunk`],
//! which the [`Vm`] executes.
//!
//! What each stage computes is stated as a function of its input:
//! [`lexeme`] gives the tokens of a source, [`parser`] the expression that
//! the tokens spell, [`expr`] the code of an expression and [`machine`]
//! what the code does. On top of these stand the laws of the pipeline:
//! [`grammar`] shows that the parser groups by precedence, [`balance`] that
//! compiled code never faults and leaves the stack empty, and
//! [`evaluation`] that it computes the value of the expression.
//!
//! Numbers are IEEE-754 binary64 values held as bit patterns. The machine
//! decides their type, sign, equality and order itself; it does not round.
//! Where an instruction needs a sum, difference, product or quotient the
//! machine stops and asks its host, and the compiler takes the value of
//! each number token from its caller.

pub mod audit;
pub mod balance;
pub mod chunk;
pub mod compiler;
pub mod disassembler;
pub mod evaluation;
pub mod expr;
pub mod grammar;
pub mod instruction;
pub mod lexeme;
pub mod machine;
pub mod parser;
pub mod pipeline;
pub mod precedence;
pub mod scanner;
pub mod text;
pub mod token;
pub mod value;
pub mod vm;

pub use audit::Kind;
pub use chunk::Chunk;
pub use compiler::{compile, compile_reporting, number_lexemes, Diagnostic};
pub use disassembler::{disassemble, disassemble_instruction, Disassembly, Listing};
pub use instruction::Instruction;
pub use machine::Arith;
pub use pipeline::interpret;
pub use precedence::Precedence;
pub use scanner::{Scanner, ScannerIterator};
pub use token::{Token, TokenType};
pub use value::{Datum, Number, Obj, ObjValue, Value};
pub use vm::{InterpretError, Operation, Progress, Vm};
