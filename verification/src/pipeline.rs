//! From source text to the first stop of the machine, in one call.

use vstd::prelude::*;
use vstd::string::StringSliceAdditionalSpecFns;
use crate::chunk::Chunk;
use crate::compiler::{compile_reporting, compiled, reported, Diagnostic};
use crate::machine::run;
use crate::lexeme::all_number_texts;
use crate::parser::parse;
use crate::value::Number;
use crate::vm::{InterpretError, Progress, Vm};

verus! {

/// Compiles `code` into the empty chunk `chunk` and, where that succeeds,
/// runs the chunk on `vm` up to its first stop. The diagnostics of a
/// failed compilation come back with its error.
///
/// `numbers` holds the value of each number token of `code`, as for
/// `compile`. After a `Pending` the host goes on with `vm.resume` on the
/// same chunk.
pub fn interpret(code: &str, numbers: &Vec<Number>, chunk: &mut Chunk, vm: &mut Vm) -> (outcome: (
    Result<Progress, InterpretError>,
    Vec<Diagnostic>,
))
    requires
        code.spec_bytes().len() < usize::MAX,
        numbers@.len() >= all_number_texts(code.spec_bytes()).len(),
        old(chunk).code().len() == 0,
        old(chunk).pool().len() == 0,
    ensures
        reported(code.spec_bytes(), outcome.1@),
        match parse(code.spec_bytes()) {
            Ok(_) => {
                &&& compiled(code.spec_bytes(), numbers@, *old(chunk), *final(chunk), Ok(()))
                &&& final(vm).reflects(
                    outcome.0,
                    run(final(chunk).code(), final(chunk).pool(), 0, Seq::empty()),
                    *final(chunk),
                )
            },
            Err(_) => {
                &&& compiled(
                    code.spec_bytes(),
                    numbers@,
                    *old(chunk),
                    *final(chunk),
                    Err(InterpretError::CompileError),
                )
                &&& outcome.0 == Err::<Progress, InterpretError>(InterpretError::CompileError)
                &&& *final(vm) == *old(vm)
            },
        },
{
    let (compilation, diagnostics) = compile_reporting(code, numbers, chunk);
    match compilation {
        Ok(_) => (vm.interpret(chunk), diagnostics),
        Err(error) => (Err(error), diagnostics),
    }
}

} // verus!
