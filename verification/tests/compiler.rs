use rlox::Instruction::{
    OpAdd, OpConstant, OpDivide, OpEqual, OpFalse, OpGreater, OpLess, OpMultiply, OpNegate, OpNil,
    OpNot, OpReturn, OpSubtract, OpTrue,
};
use rlox::{
    compile, compile_reporting, number_lexemes, Chunk, Instruction, InterpretError, Number, Value,
};

fn numbers_of(code: &str) -> Vec<Number> {
    number_lexemes(code)
        .iter()
        .map(|lexeme| {
            let text = std::str::from_utf8(lexeme).unwrap();
            Number::from_bits(text.parse::<f64>().unwrap().to_bits())
        })
        .collect()
}

fn number(value: f64) -> Value {
    Value::Number(Number::from_bits(value.to_bits()))
}

#[test]
fn test_compile_number() {
    let mut chunk = Chunk::new();
    let result = compile("123.4", &numbers_of("123.4"), &mut chunk);
    assert!(matches!(result, Ok(())));

    let instructions = chunk.instructions();
    let mut instructions = instructions.iter();
    let first_instruction = instructions.next().unwrap();
    assert!(matches!(first_instruction, &Instruction::OpConstant(_)));
    let constant_index = match first_instruction {
        Instruction::OpConstant(n) => n,
        _ => unreachable!(),
    };
    assert_eq!(chunk.constant_at(*constant_index), &number(123.4));

    assert!(matches!(
        instructions.next().unwrap(),
        &Instruction::OpReturn
    ));
}

#[test]
fn test_compile_unary_operator() {
    let mut chunk = Chunk::new();
    let result = compile("-123.4", &numbers_of("-123.4"), &mut chunk);
    assert!(matches!(result, Ok(())));

    let instructions = chunk.instructions();
    let mut instructions = instructions.iter();

    let constant_instruction = instructions.next().unwrap();
    assert!(matches!(constant_instruction, &Instruction::OpConstant(_)));
    let constant_index = match constant_instruction {
        Instruction::OpConstant(n) => n,
        _ => unreachable!(),
    };
    assert_eq!(chunk.constant_at(*constant_index), &number(123.4));

    let negate_instruction = instructions.next().unwrap();
    assert!(matches!(negate_instruction, &Instruction::OpNegate));

    assert!(matches!(
        instructions.next().unwrap(),
        &Instruction::OpReturn
    ));
}

#[test]
fn test_compile_binary_operator() {
    let mut chunk = Chunk::new();
    let result = compile("1 + 2", &numbers_of("1 + 2"), &mut chunk);
    assert!(matches!(result, Ok(())));

    let instructions = chunk.instructions();
    let mut instructions = instructions.iter();

    let first_operand_instruction = instructions.next().unwrap();
    assert!(matches!(
        first_operand_instruction,
        &Instruction::OpConstant(_)
    ));
    let constant_index = match first_operand_instruction {
        Instruction::OpConstant(n) => n,
        _ => unreachable!(),
    };
    assert_eq!(chunk.constant_at(*constant_index), &number(1.0));

    let second_operand_instruction = instructions.next().unwrap();
    assert!(matches!(
        second_operand_instruction,
        &Instruction::OpConstant(_)
    ));
    let constant_index = match second_operand_instruction {
        Instruction::OpConstant(n) => n,
        _ => unreachable!(),
    };
    assert_eq!(chunk.constant_at(*constant_index), &number(2.0));

    let add_instruction = instructions.next().unwrap();
    assert!(matches!(add_instruction, &Instruction::OpAdd));

    assert!(matches!(
        instructions.next().unwrap(),
        &Instruction::OpReturn
    ));
}

#[test]
fn test_arithmetic_precedence() {
    let mut chunk = Chunk::new();
    let result = compile("1 + 2 * 3", &numbers_of("1 + 2 * 3"), &mut chunk);
    assert!(matches!(result, Ok(())));

    let instructions = chunk.instructions();
    let mut instructions = instructions.iter();

    let first_operand_instruction = instructions.next().unwrap();
    assert!(matches!(
        first_operand_instruction,
        &Instruction::OpConstant(_)
    ));
    let constant_index = match first_operand_instruction {
        Instruction::OpConstant(n) => n,
        _ => unreachable!(),
    };
    assert_eq!(chunk.constant_at(*constant_index), &number(1.0));

    let second_operand_instruction = instructions.next().unwrap();
    assert!(matches!(
        second_operand_instruction,
        &Instruction::OpConstant(_)
    ));
    let constant_index = match second_operand_instruction {
        Instruction::OpConstant(n) => n,
        _ => unreachable!(),
    };
    assert_eq!(chunk.constant_at(*constant_index), &number(2.0));

    let third_operand_instruction = instructions.next().unwrap();
    assert!(matches!(
        third_operand_instruction,
        &Instruction::OpConstant(_)
    ));
    let constant_index = match third_operand_instruction {
        Instruction::OpConstant(n) => n,
        _ => unreachable!(),
    };
    assert_eq!(chunk.constant_at(*constant_index), &number(3.0));

    let multiply_instruction = instructions.next().unwrap();
    assert!(matches!(multiply_instruction, &Instruction::OpMultiply));

    let add_instruction = instructions.next().unwrap();
    assert!(matches!(add_instruction, &Instruction::OpAdd));

    assert!(matches!(
        instructions.next().unwrap(),
        &Instruction::OpReturn
    ));
}

#[test]
fn test_grouping() {
    let mut chunk = Chunk::new();
    let result = compile("(1 + 2) * 3", &numbers_of("(1 + 2) * 3"), &mut chunk);
    assert!(matches!(result, Ok(())));

    let instructions = chunk.instructions();
    let mut instructions = instructions.iter();

    let first_operand_instruction = instructions.next().unwrap();
    assert!(matches!(
        first_operand_instruction,
        &Instruction::OpConstant(_)
    ));
    let constant_index = match first_operand_instruction {
        Instruction::OpConstant(n) => n,
        _ => unreachable!(),
    };
    assert_eq!(chunk.constant_at(*constant_index), &number(1.0));

    let second_operand_instruction = instructions.next().unwrap();
    assert!(matches!(
        second_operand_instruction,
        &Instruction::OpConstant(_)
    ));
    let constant_index = match second_operand_instruction {
        Instruction::OpConstant(n) => n,
        _ => unreachable!(),
    };
    assert_eq!(chunk.constant_at(*constant_index), &number(2.0));

    let add_instruction = instructions.next().unwrap();
    assert!(matches!(add_instruction, &Instruction::OpAdd));

    let third_operand_instruction = instructions.next().unwrap();
    assert!(matches!(
        third_operand_instruction,
        &Instruction::OpConstant(_)
    ));
    let constant_index = match third_operand_instruction {
        Instruction::OpConstant(n) => n,
        _ => unreachable!(),
    };
    assert_eq!(chunk.constant_at(*constant_index), &number(3.0));

    let multiply_instruction = instructions.next().unwrap();
    assert!(matches!(multiply_instruction, &Instruction::OpMultiply));

    assert!(matches!(
        instructions.next().unwrap(),
        &Instruction::OpReturn
    ));
}

#[test]
fn test_grouping_error() {
    let mut chunk = Chunk::new();
    let result = compile("(1 + 2", &numbers_of("(1 + 2"), &mut chunk);
    assert!(matches!(result, Err(InterpretError::CompileError)));
}

#[test]
fn grouping_error_is_reported_once() {
    let mut chunk = Chunk::new();
    let (result, diagnostics) = compile_reporting("(1 + 2", &numbers_of("(1 + 2"), &mut chunk);
    assert_eq!(result, Err(InterpretError::CompileError));
    assert_eq!(diagnostics.len(), 1);
    assert_eq!(diagnostics[0].line, 1);
    assert_eq!(diagnostics[0].lexeme, Some(Vec::new()));
    assert_eq!(diagnostics[0].message, b"Expect ')' after expression".to_vec());
}

fn compiled(code: &str) -> (Vec<Instruction>, Vec<Value>, Vec<usize>) {
    let mut chunk = Chunk::new();
    let result = compile(code, &numbers_of(code), &mut chunk);
    assert_eq!(result, Ok(()), "{}", code);
    let instructions = chunk.instructions();
    let constants = (0..chunk.constants_count())
        .map(|index| chunk.constant_at(index).clone())
        .collect();
    let lines = (0..chunk.instructions_count())
        .map(|index| *chunk.line_at(index))
        .collect();
    (instructions, constants, lines)
}

fn first_diagnostic(code: &str) -> String {
    let mut chunk = Chunk::new();
    let (result, diagnostics) = compile_reporting(code, &numbers_of(code), &mut chunk);
    assert_eq!(result, Err(InterpretError::CompileError), "{}", code);
    assert_eq!(diagnostics.len(), 1, "{}", code);
    assert_eq!(chunk.instructions().last(), Some(&Instruction::OpReturn));
    String::from_utf8(diagnostics[0].render()).unwrap()
}


#[test]
fn literal_compiles_to_constant_and_return() {
    let (instructions, constants, lines) = compiled("123.4");
    assert_eq!(instructions, vec![OpConstant(0), OpReturn]);
    assert_eq!(constants, vec![number(123.4)]);
    assert_eq!(lines, vec![1, 1]);
}

#[test]
fn unary_minus_follows_its_operand() {
    let (instructions, constants, _) = compiled("-123.4");
    assert_eq!(instructions, vec![OpConstant(0), OpNegate, OpReturn]);
    assert_eq!(constants, vec![number(123.4)]);
}

#[test]
fn subtraction_groups_to_the_left() {
    let (instructions, constants, _) = compiled("1 - 2 - 3");
    assert_eq!(
        instructions,
        vec![OpConstant(0), OpConstant(1), OpSubtract, OpConstant(2), OpSubtract, OpReturn]
    );
    assert_eq!(constants, vec![number(1.0), number(2.0), number(3.0)]);
}

#[test]
fn multiplication_binds_tighter_than_addition() {
    let (instructions, constants, _) = compiled("1 + 2 * 3");
    assert_eq!(
        instructions,
        vec![OpConstant(0), OpConstant(1), OpConstant(2), OpMultiply, OpAdd, OpReturn]
    );
    assert_eq!(constants, vec![number(1.0), number(2.0), number(3.0)]);
}

#[test]
fn grouping_overrides_precedence() {
    let (instructions, constants, _) = compiled("(1 + 2) * 3");
    assert_eq!(
        instructions,
        vec![OpConstant(0), OpConstant(1), OpAdd, OpConstant(2), OpMultiply, OpReturn]
    );
    assert_eq!(constants, vec![number(1.0), number(2.0), number(3.0)]);
}

#[test]
fn keyword_literals() {
    assert_eq!(compiled("true").0, vec![OpTrue, OpReturn]);
    assert_eq!(compiled("false").0, vec![OpFalse, OpReturn]);
    assert_eq!(compiled("nil").0, vec![OpNil, OpReturn]);
    assert_eq!(compiled("!nil").0, vec![OpNil, OpNot, OpReturn]);
}

#[test]
fn each_operator_emits_its_instructions() {
    let table: [(&str, Vec<Instruction>); 10] = [
        ("+", vec![OpAdd]),
        ("-", vec![OpSubtract]),
        ("*", vec![OpMultiply]),
        ("/", vec![OpDivide]),
        ("==", vec![OpEqual]),
        ("!=", vec![OpEqual, OpNot]),
        (">", vec![OpGreater]),
        (">=", vec![OpLess, OpNot]),
        ("<", vec![OpLess]),
        ("<=", vec![OpGreater, OpNot]),
    ];
    for (operator, emitted) in table {
        let code = format!("1 {} 2", operator);
        let mut expected = vec![OpConstant(0), OpConstant(1)];
        expected.extend(emitted);
        expected.push(OpReturn);
        assert_eq!(compiled(&code).0, expected, "{}", code);
    }
}

#[test]
fn comparison_binds_tighter_than_equality_and_looser_than_terms() {
    assert_eq!(
        compiled("1 + 2 < 3 == true").0,
        vec![OpConstant(0), OpConstant(1), OpAdd, OpConstant(2), OpLess, OpTrue, OpEqual, OpReturn]
    );
    assert_eq!(
        compiled("!true == false").0,
        vec![OpTrue, OpNot, OpFalse, OpEqual, OpReturn]
    );
    assert_eq!(
        compiled("-1 * -2").0,
        vec![OpConstant(0), OpNegate, OpConstant(1), OpNegate, OpMultiply, OpReturn]
    );
    assert_eq!(
        compiled("--1").0,
        vec![OpConstant(0), OpNegate, OpNegate, OpReturn]
    );
}

#[test]
fn instructions_carry_the_line_of_the_last_token_read() {
    let (instructions, _, lines) = compiled("1 +\n2\n*\n3");
    assert_eq!(
        instructions,
        vec![OpConstant(0), OpConstant(1), OpConstant(2), OpMultiply, OpAdd, OpReturn]
    );
    assert_eq!(lines, vec![1, 2, 4, 4, 4, 4]);
    let (_, _, lines) = compiled("(\n-1\n)");
    assert_eq!(lines, vec![2, 2, 3]);
}

#[test]
fn compiling_stops_where_the_expression_ends() {
    assert_eq!(compiled("1 2").0, vec![OpConstant(0), OpReturn]);
    assert_eq!(compiled("1 2").1, vec![number(1.0)]);
    assert_eq!(compiled("1 ) @").0, vec![OpConstant(0), OpReturn]);
}

#[test]
fn compiling_appends_to_the_chunk() {
    let mut chunk = Chunk::new();
    chunk.add_constant(Value::Nil);
    chunk.add_instruction(OpNil, 9);
    assert_eq!(compile("7", &numbers_of("7"), &mut chunk), Ok(()));
    assert_eq!(chunk.instructions(), vec![OpNil, OpConstant(1), OpReturn]);
    assert_eq!(chunk.constant_at(1), &number(7.0));
}

#[test]
fn number_lexemes_are_found_in_order() {
    assert_eq!(
        number_lexemes("1 + 2.50 * (x3 - 4.) // 5\n\"6\" 7"),
        vec![b"1".to_vec(), b"2.50".to_vec(), b"4".to_vec(), b"7".to_vec()]
    );
    assert!(number_lexemes("").is_empty());
    assert!(number_lexemes("\"1").is_empty());
}

#[test]
fn missing_operand_is_reported() {
    assert_eq!(
        first_diagnostic("1 +"),
        "[line 1] Error at '': Expected prefix expression"
    );
    assert_eq!(
        first_diagnostic(""),
        "[line 1] Error at '': Expected prefix expression"
    );
    assert_eq!(
        first_diagnostic("\n\n* 2"),
        "[line 3] Error at '*': Expected prefix expression"
    );
    assert_eq!(
        first_diagnostic("print"),
        "[line 1] Error at 'print': Expected prefix expression"
    );
}

#[test]
fn missing_parenthesis_is_reported() {
    assert_eq!(
        first_diagnostic("(1 + 2"),
        "[line 1] Error at '': Expect ')' after expression"
    );
    assert_eq!(
        first_diagnostic("(1 2)"),
        "[line 1] Error at '2': Expect ')' after expression"
    );
}

#[test]
fn lexical_faults_are_reported_without_a_lexeme() {
    assert_eq!(
        first_diagnostic("1 + \"abc"),
        "[line 1] Error: Unterminated string."
    );
    assert_eq!(
        first_diagnostic("@ 1"),
        "[line 1] Error: Unexpected character."
    );
    assert_eq!(
        first_diagnostic("1 +\n# 2 )"),
        "[line 2] Error: Unexpected character."
    );
}

#[test]
fn only_the_first_fault_is_reported() {
    assert_eq!(
        first_diagnostic("(1 + @ # ) * ( +"),
        "[line 1] Error: Unexpected character."
    );
    assert_eq!(
        first_diagnostic("(+ (* ("),
        "[line 1] Error at '+': Expected prefix expression"
    );
}

#[test]
fn compiled_chunks_are_accepted_by_the_machine() {
    for code in ["1", "-true", "1 + 2 * 3", "(1 < 2) == !nil", "nil + nil"] {
        let mut chunk = Chunk::new();
        assert_eq!(compile(code, &numbers_of(code), &mut chunk), Ok(()));
        assert!(rlox::Vm::accepts(&chunk), "{}", code);
    }
}
