use rlox::{
    interpret, number_lexemes, Arith, Chunk, InterpretError, Number, Operation, Progress, Value,
    Vm,
};

fn numbers_of(code: &str) -> Vec<Number> {
    number_lexemes(code)
        .iter()
        .map(|lexeme| {
            let text = std::str::from_utf8(lexeme).unwrap();
            Number::from_bits(text.parse::<f64>().unwrap().to_bits())
        })
        .collect()
}

fn number(value: f64) -> Value {
    Value::Number(Number::from_bits(value.to_bits()))
}

fn answer(operation: &Operation) -> Number {
    let lhs = f64::from_bits(operation.lhs.to_bits());
    let rhs = f64::from_bits(operation.rhs.to_bits());
    let result = match operation.op {
        Arith::Add => lhs + rhs,
        Arith::Subtract => lhs - rhs,
        Arith::Multiply => lhs * rhs,
        Arith::Divide => lhs / rhs,
    };
    Number::from_bits(result.to_bits())
}

fn evaluate(code: &str) -> Result<Value, InterpretError> {
    let mut chunk = Chunk::new();
    let mut vm = Vm::new();
    let (mut progress, diagnostics) = interpret(code, &numbers_of(code), &mut chunk, &mut vm);
    assert_eq!(
        diagnostics.len(),
        if matches!(progress, Err(InterpretError::CompileError)) { 1 } else { 0 }
    );
    loop {
        match progress {
            Ok(Progress::Returned(value)) => {
                assert_eq!(vm.stack_depth(), 0, "{}", code);
                return Ok(value);
            }
            Ok(Progress::Pending(operation)) => {
                assert!(vm.can_resume(&chunk));
                progress = vm.resume(&chunk, answer(&operation));
            }
            Err(error) => return Err(error),
        }
    }
}

#[test]
fn subtraction_is_left_associative() {
    assert_eq!(evaluate("1 - 2 - 3"), Ok(number(-4.0)));
}

#[test]
fn precedence_decides_the_result() {
    assert_eq!(evaluate("1 + 2 * 3"), Ok(number(7.0)));
}

#[test]
fn grouping_decides_the_result() {
    assert_eq!(evaluate("(1 + 2) * 3"), Ok(number(9.0)));
}

#[test]
fn expressions_leave_the_stack_empty() {
    for code in [
        "1",
        "-(1 + 2) * 3 / 4 - 5",
        "!(1 < 2) == (3 >= 4)",
        "nil == false",
        "((((1))))",
        "1 <= 2 != true",
    ] {
        assert!(evaluate(code).is_ok(), "{}", code);
    }
}

#[test]
fn comparisons_and_equality() {
    assert_eq!(evaluate("1 < 2"), Ok(Value::Boolean(true)));
    assert_eq!(evaluate("1 <= 1"), Ok(Value::Boolean(true)));
    assert_eq!(evaluate("1 > 2"), Ok(Value::Boolean(false)));
    assert_eq!(evaluate("2 >= 3"), Ok(Value::Boolean(false)));
    assert_eq!(evaluate("1 == 1"), Ok(Value::Boolean(true)));
    assert_eq!(evaluate("1 != 1"), Ok(Value::Boolean(false)));
    assert_eq!(evaluate("1 == true"), Ok(Value::Boolean(false)));
    assert_eq!(evaluate("nil != false"), Ok(Value::Boolean(true)));
    assert_eq!(evaluate("!0"), Ok(Value::Boolean(false)));
    assert_eq!(evaluate("!nil"), Ok(Value::Boolean(true)));
}

#[test]
fn division_follows_the_host() {
    assert_eq!(evaluate("1 / 0"), Ok(number(f64::INFINITY)));
    assert_eq!(evaluate("-1 / 0"), Ok(number(f64::NEG_INFINITY)));
    assert_eq!(evaluate("7 / 2"), Ok(number(3.5)));
    assert_eq!(evaluate("0.1 + 0.2"), Ok(number(0.1 + 0.2)));
}

#[test]
fn type_errors_surface_at_run_time() {
    assert_eq!(evaluate("-true"), Err(InterpretError::RuntimeError));
    assert_eq!(evaluate("1 + nil"), Err(InterpretError::RuntimeError));
    assert_eq!(evaluate("nil < 1"), Err(InterpretError::RuntimeError));
    assert_eq!(evaluate("true * false"), Err(InterpretError::RuntimeError));
    assert_eq!(evaluate("(1 < 2) - 1"), Err(InterpretError::RuntimeError));
}

#[test]
fn compile_errors_come_before_any_run() {
    assert_eq!(evaluate("(1 + 2"), Err(InterpretError::CompileError));
    assert_eq!(evaluate("1 +"), Err(InterpretError::CompileError));
    assert_eq!(evaluate("\"text\""), Err(InterpretError::CompileError));
}
