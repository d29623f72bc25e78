use rlox::{Chunk, Instruction, Number, Value};

fn number(value: f64) -> Value {
    Value::Number(Number::from_bits(value.to_bits()))
}

#[test]
fn new_chunk_is_empty() {
    let chunk = Chunk::new();
    assert_eq!(chunk.instructions_count(), 0);
    assert_eq!(chunk.constants_count(), 0);
    assert!(chunk.instructions().is_empty());
    assert_eq!(chunk.instruction_at(0), None);
}

#[test]
fn instructions_and_lines_are_appended_together() {
    let mut chunk = Chunk::new();
    chunk.add_instruction(Instruction::OpNil, 7);
    chunk.add_instruction(Instruction::OpNot, 7);
    chunk.add_instruction(Instruction::OpReturn, 9);
    assert_eq!(chunk.instructions_count(), 3);
    assert_eq!(
        chunk.instructions(),
        vec![Instruction::OpNil, Instruction::OpNot, Instruction::OpReturn]
    );
    assert_eq!(chunk.instruction_at(1), Some(&Instruction::OpNot));
    assert_eq!(chunk.instruction_at(3), None);
    assert_eq!(*chunk.line_at(0), 7);
    assert_eq!(*chunk.line_at(1), 7);
    assert_eq!(*chunk.line_at(2), 9);
}

#[test]
fn constants_are_appended_without_sharing() {
    let mut chunk = Chunk::new();
    assert_eq!(chunk.add_constant(number(1.5)), 0);
    assert_eq!(chunk.add_constant(number(1.5)), 1);
    assert_eq!(chunk.add_constant(Value::string("s")), 2);
    assert_eq!(chunk.constants_count(), 3);
    assert_eq!(chunk.constant_at(0), &number(1.5));
    assert_eq!(chunk.constant_at(1), &number(1.5));
    assert_eq!(chunk.constant_at(2), &Value::string("s"));
    assert_eq!(chunk.instructions_count(), 0);
}
