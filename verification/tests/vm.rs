use rlox::{
    Arith, Chunk, Instruction, InterpretError, Number, Operation, Progress, Value, Vm,
};

fn number(value: f64) -> Value {
    Value::Number(Number::from_bits(value.to_bits()))
}

fn answer(operation: &Operation) -> Number {
    let lhs = f64::from_bits(operation.lhs.to_bits());
    let rhs = f64::from_bits(operation.rhs.to_bits());
    let result = match operation.op {
        Arith::Add => lhs + rhs,
        Arith::Subtract => lhs - rhs,
        Arith::Multiply => lhs * rhs,
        Arith::Divide => lhs / rhs,
    };
    Number::from_bits(result.to_bits())
}

fn run(vm: &mut Vm, chunk: &Chunk) -> Result<Value, InterpretError> {
    let mut progress = vm.interpret(chunk);
    loop {
        match progress {
            Ok(Progress::Returned(value)) => return Ok(value),
            Ok(Progress::Pending(operation)) => progress = vm.resume(chunk, answer(&operation)),
            Err(error) => return Err(error),
        }
    }
}

#[test]
fn test_empty_stack_after_binary_operation() {
    let mut vm = Vm::new();
    let mut chunk = Chunk::new();

    let constant_index = chunk.add_constant(number(2.0));
    chunk.add_instruction(Instruction::OpConstant(constant_index), 1);
    let constant_index = chunk.add_constant(number(3.0));
    chunk.add_instruction(Instruction::OpConstant(constant_index), 1);
    chunk.add_instruction(Instruction::OpAdd, 1);
    chunk.add_instruction(Instruction::OpReturn, 1);

    run(&mut vm, &chunk).expect("Error running chunk");

    assert_eq!(vm.stack_depth(), 0);
}

#[test]
fn test_empty_stack_after_negation() {
    let mut vm = Vm::new();
    let mut chunk = Chunk::new();

    let constant_index = chunk.add_constant(number(2.0));
    chunk.add_instruction(Instruction::OpConstant(constant_index), 1);
    chunk.add_instruction(Instruction::OpNegate, 1);
    chunk.add_instruction(Instruction::OpReturn, 1);

    run(&mut vm, &chunk).expect("Error running chunk");

    assert_eq!(vm.stack_depth(), 0);
}

#[test]
fn binary_operation_asks_the_host_with_operands_in_order() {
    let mut vm = Vm::new();
    let mut chunk = Chunk::new();
    let first = chunk.add_constant(number(2.0));
    chunk.add_instruction(Instruction::OpConstant(first), 1);
    let second = chunk.add_constant(number(3.0));
    chunk.add_instruction(Instruction::OpConstant(second), 1);
    chunk.add_instruction(Instruction::OpSubtract, 1);
    chunk.add_instruction(Instruction::OpReturn, 1);

    match vm.interpret(&chunk) {
        Ok(Progress::Pending(operation)) => {
            assert_eq!(operation.op, Arith::Subtract);
            assert_eq!(operation.lhs.to_bits(), 2.0f64.to_bits());
            assert_eq!(operation.rhs.to_bits(), 3.0f64.to_bits());
        }
        other => panic!("expected a pending operation, got {:?}", other),
    }
    match vm.resume(&chunk, Number::from_bits((-1.0f64).to_bits())) {
        Ok(Progress::Returned(value)) => assert_eq!(value, number(-1.0)),
        other => panic!("expected a value, got {:?}", other),
    }
}

fn chunk_of(constants: Vec<Value>, code: &[Instruction]) -> Chunk {
    let mut chunk = Chunk::new();
    for constant in constants {
        chunk.add_constant(constant);
    }
    for instruction in code {
        chunk.add_instruction(*instruction, 1);
    }
    chunk
}

fn binary(lhs: Value, rhs: Value, instruction: Instruction) -> Result<Value, InterpretError> {
    let chunk = chunk_of(
        vec![lhs, rhs],
        &[
            Instruction::OpConstant(0),
            Instruction::OpConstant(1),
            instruction,
            Instruction::OpReturn,
        ],
    );
    assert!(Vm::accepts(&chunk));
    let mut vm = Vm::new();
    run(&mut vm, &chunk)
}

fn unary(operand: Value, instruction: Instruction) -> Result<Value, InterpretError> {
    let chunk = chunk_of(
        vec![operand],
        &[Instruction::OpConstant(0), instruction, Instruction::OpReturn],
    );
    assert!(Vm::accepts(&chunk));
    let mut vm = Vm::new();
    run(&mut vm, &chunk)
}

#[test]
fn arithmetic_on_numbers() {
    assert_eq!(binary(number(2.0), number(3.0), Instruction::OpAdd), Ok(number(5.0)));
    assert_eq!(binary(number(2.0), number(3.0), Instruction::OpSubtract), Ok(number(-1.0)));
    assert_eq!(binary(number(2.0), number(3.0), Instruction::OpMultiply), Ok(number(6.0)));
    assert_eq!(binary(number(3.0), number(2.0), Instruction::OpDivide), Ok(number(1.5)));
}

#[test]
fn division_by_zero_is_no_error() {
    assert_eq!(
        binary(number(1.0), number(0.0), Instruction::OpDivide),
        Ok(number(f64::INFINITY))
    );
    assert_eq!(
        binary(number(-1.0), number(0.0), Instruction::OpDivide),
        Ok(number(f64::NEG_INFINITY))
    );
    match binary(number(0.0), number(0.0), Instruction::OpDivide) {
        Ok(Value::Number(quotient)) => assert!(quotient.nan()),
        other => panic!("expected a NaN, got {:?}", other),
    }
}

#[test]
fn add_concatenates_strings() {
    assert_eq!(
        binary(Value::string("ab"), Value::string("cd"), Instruction::OpAdd),
        Ok(Value::string("abcd"))
    );
}

#[test]
fn negate_on_a_non_number_is_a_runtime_error() {
    assert_eq!(unary(number(2.0), Instruction::OpNegate), Ok(number(-2.0)));
    for operand in [Value::Nil, Value::Boolean(true), Value::string("1")] {
        assert_eq!(
            unary(operand, Instruction::OpNegate),
            Err(InterpretError::RuntimeError)
        );
    }
}

#[test]
fn arithmetic_and_ordering_on_non_numbers_are_runtime_errors() {
    let instructions = [
        Instruction::OpAdd,
        Instruction::OpSubtract,
        Instruction::OpMultiply,
        Instruction::OpDivide,
        Instruction::OpGreater,
        Instruction::OpLess,
    ];
    for instruction in instructions {
        for other in [Value::Nil, Value::Boolean(true), Value::string("1")] {
            assert_eq!(
                binary(number(1.0), other.clone(), instruction),
                Err(InterpretError::RuntimeError)
            );
            assert_eq!(
                binary(other.clone(), number(1.0), instruction),
                Err(InterpretError::RuntimeError)
            );
            assert_eq!(
                binary(Value::Nil, other, instruction),
                Err(InterpretError::RuntimeError)
            );
        }
    }
    for instruction in &instructions[1..] {
        assert_eq!(
            binary(Value::string("a"), Value::string("b"), *instruction),
            Err(InterpretError::RuntimeError)
        );
    }
}

#[test]
fn ordering_of_numbers() {
    assert_eq!(binary(number(2.0), number(1.0), Instruction::OpGreater), Ok(Value::Boolean(true)));
    assert_eq!(binary(number(1.0), number(2.0), Instruction::OpGreater), Ok(Value::Boolean(false)));
    assert_eq!(binary(number(1.0), number(2.0), Instruction::OpLess), Ok(Value::Boolean(true)));
    assert_eq!(binary(number(2.0), number(2.0), Instruction::OpLess), Ok(Value::Boolean(false)));
}

#[test]
fn equal_compares_any_two_values() {
    assert_eq!(binary(number(1.0), number(1.0), Instruction::OpEqual), Ok(Value::Boolean(true)));
    assert_eq!(
        binary(number(1.0), Value::Boolean(true), Instruction::OpEqual),
        Ok(Value::Boolean(false))
    );
    assert_eq!(binary(Value::Nil, Value::Nil, Instruction::OpEqual), Ok(Value::Boolean(true)));
}

#[test]
fn not_negates_truthiness() {
    assert_eq!(unary(Value::Nil, Instruction::OpNot), Ok(Value::Boolean(true)));
    assert_eq!(unary(Value::Boolean(false), Instruction::OpNot), Ok(Value::Boolean(true)));
    assert_eq!(unary(number(0.0), Instruction::OpNot), Ok(Value::Boolean(false)));
    assert_eq!(unary(Value::string(""), Instruction::OpNot), Ok(Value::Boolean(false)));
}

#[test]
fn literal_instructions_push_their_values() {
    for (instruction, value) in [
        (Instruction::OpTrue, Value::Boolean(true)),
        (Instruction::OpFalse, Value::Boolean(false)),
        (Instruction::OpNil, Value::Nil),
    ] {
        let chunk = chunk_of(vec![], &[instruction, Instruction::OpReturn]);
        let mut vm = Vm::new();
        assert_eq!(run(&mut vm, &chunk), Ok(value));
        assert_eq!(vm.stack_depth(), 0);
    }
}

#[test]
fn running_off_the_end_is_a_runtime_error() {
    let mut vm = Vm::new();
    assert_eq!(
        run(&mut vm, &chunk_of(vec![], &[])),
        Err(InterpretError::RuntimeError)
    );
    assert_eq!(
        run(&mut vm, &chunk_of(vec![], &[Instruction::OpNil])),
        Err(InterpretError::RuntimeError)
    );
}

#[test]
fn faulty_chunks_are_not_accepted() {
    assert!(!Vm::accepts(&chunk_of(vec![], &[Instruction::OpReturn])));
    assert!(!Vm::accepts(&chunk_of(vec![], &[Instruction::OpNil, Instruction::OpAdd])));
    assert!(!Vm::accepts(&chunk_of(vec![], &[Instruction::OpConstant(0)])));
    assert!(!Vm::accepts(&chunk_of(vec![], &[Instruction::OpNot])));
    assert!(Vm::accepts(&chunk_of(vec![], &[])));
    assert!(Vm::accepts(&chunk_of(
        vec![],
        &[Instruction::OpNil, Instruction::OpReturn, Instruction::OpAdd]
    )));
    // A type error stops the run before the instruction that would fault.
    assert!(Vm::accepts(&chunk_of(
        vec![],
        &[Instruction::OpTrue, Instruction::OpNegate, Instruction::OpAdd]
    )));
}

#[test]
fn a_pending_machine_can_resume() {
    let chunk = chunk_of(
        vec![number(1.0), number(2.0)],
        &[
            Instruction::OpConstant(0),
            Instruction::OpConstant(1),
            Instruction::OpAdd,
            Instruction::OpNegate,
            Instruction::OpReturn,
        ],
    );
    let mut vm = Vm::new();
    assert!(matches!(vm.interpret(&chunk), Ok(Progress::Pending(_))));
    assert_eq!(vm.stack_depth(), 0);
    assert!(vm.can_resume(&chunk));
    assert_eq!(
        vm.resume(&chunk, Number::from_bits(3.0f64.to_bits())).ok().map(|progress| match progress {
            Progress::Returned(value) => value,
            Progress::Pending(_) => panic!("nothing more to ask"),
        }),
        Some(number(-3.0))
    );
}

#[test]
fn interpret_starts_afresh() {
    let failing = chunk_of(
        vec![],
        &[Instruction::OpNil, Instruction::OpNil, Instruction::OpNegate, Instruction::OpReturn],
    );
    let mut vm = Vm::new();
    assert_eq!(run(&mut vm, &failing), Err(InterpretError::RuntimeError));
    let good = chunk_of(vec![], &[Instruction::OpTrue, Instruction::OpReturn]);
    assert_eq!(run(&mut vm, &good), Ok(Value::Boolean(true)));
    assert_eq!(vm.stack_depth(), 0);
}
