use rlox::text::{append, append_left_aligned, append_right_aligned, decimal_digits};
use rlox::{disassemble, disassemble_instruction, Chunk, Instruction, Number, Value};

fn text(bytes: &[u8]) -> &str {
    std::str::from_utf8(bytes).unwrap()
}

#[test]
fn decimal_digits_of_numbers() {
    assert_eq!(decimal_digits(0), b"0".to_vec());
    assert_eq!(decimal_digits(7), b"7".to_vec());
    assert_eq!(decimal_digits(10), b"10".to_vec());
    assert_eq!(decimal_digits(1234567890), b"1234567890".to_vec());
    assert_eq!(decimal_digits(usize::MAX), usize::MAX.to_string().into_bytes());
}

#[test]
fn alignment_pads_short_text_only() {
    let mut out = b">".to_vec();
    append_right_aligned(&mut out, b"12", 4, b'0');
    append(&mut out, b"|");
    append_left_aligned(&mut out, b"ab", 4, b'.');
    append(&mut out, b"|");
    append_right_aligned(&mut out, b"12345", 4, b' ');
    append_left_aligned(&mut out, b"abcde", 4, b' ');
    assert_eq!(text(&out), ">0012|ab..|12345abcde");
}

#[test]
fn listing_of_a_chunk() {
    let mut chunk = Chunk::new();
    let index = chunk.add_constant(Value::Number(Number::from_bits(1.2f64.to_bits())));
    chunk.add_instruction(Instruction::OpConstant(index), 123);
    chunk.add_instruction(Instruction::OpNegate, 123);
    chunk.add_instruction(Instruction::OpReturn, 124);

    let listing = disassemble(&chunk, "test chunk");
    assert_eq!(text(&listing.title), "== test chunk ==");
    assert_eq!(listing.lines.len(), 3);
    assert_eq!(text(&listing.lines[0].text), "0000  123 OpConstant         0");
    assert_eq!(listing.lines[0].constant, Some(0));
    assert_eq!(text(&listing.lines[1].text), "0001    | OpNegate");
    assert_eq!(listing.lines[1].constant, None);
    assert_eq!(text(&listing.lines[2].text), "0002  124 OpReturn");
    assert_eq!(listing.lines[2].constant, None);

    let single = disassemble_instruction(&chunk, 1);
    assert_eq!(single.text, listing.lines[1].text);
}

#[test]
fn every_instruction_has_its_name() {
    let names = [
        (Instruction::OpReturn, "OpReturn"),
        (Instruction::OpNegate, "OpNegate"),
        (Instruction::OpAdd, "OpAdd"),
        (Instruction::OpSubtract, "OpSubtract"),
        (Instruction::OpMultiply, "OpMultiply"),
        (Instruction::OpDivide, "OpDivide"),
        (Instruction::OpTrue, "OpTrue"),
        (Instruction::OpFalse, "OpFalse"),
        (Instruction::OpNil, "OpNil"),
        (Instruction::OpNot, "OpNot"),
        (Instruction::OpEqual, "OpEqual"),
        (Instruction::OpGreater, "OpGreater"),
        (Instruction::OpLess, "OpLess"),
    ];
    for (line, (instruction, name)) in names.iter().enumerate() {
        let mut chunk = Chunk::new();
        chunk.add_instruction(*instruction, line + 1);
        let listing = disassemble_instruction(&chunk, 0);
        assert_eq!(text(&listing.text), format!("0000 {:>4} {}", line + 1, name));
    }
}

#[test]
fn wide_indices_and_lines_are_not_cut() {
    let mut chunk = Chunk::new();
    for _ in 0..10001 {
        chunk.add_instruction(Instruction::OpNil, 54321);
    }
    chunk.add_instruction(Instruction::OpConstant(98765), 54322);
    assert_eq!(text(&disassemble_instruction(&chunk, 0).text), "0000 54321 OpNil");
    assert_eq!(text(&disassemble_instruction(&chunk, 10000).text), "10000    | OpNil");
    assert_eq!(
        text(&disassemble_instruction(&chunk, 10001).text),
        "10001 54322 OpConstant      98765"
    );
}
