use rlox::chunk::Chunk;
use rlox::object::{Object, ObjectType};
use rlox::op_code::OpCode::{OP_ADD, OP_CONSTANT, OP_DIVIDE, OP_NEGATE, OP_RETURN};
use rlox::value::Value;
use rlox::vm::{FaultKind, InterpretError, VM};

fn number(x: f32) -> Value {
    Value::VAL_NUMBER(x.to_bits())
}

fn string(s: &str) -> Value {
    Value::VAL_OBJECT(Object {
        object_type: ObjectType::OBJ_STRING(String::from(s)),
    })
}

/// Runs `source` and returns the value left on top of the stack.
fn evaluate(source: &str) -> Value {
    let report = VM::run_source(source.as_bytes().to_vec());
    assert_eq!(report.result, Ok(()));
    report.stack.last().cloned().unwrap()
}

fn failure(source: &str) -> InterpretError {
    VM::interpret(source.as_bytes().to_vec()).unwrap_err()
}

#[test]
fn binary_operands_should_succeed() {
    let mut chunk = Chunk::new();

    let mut constant_index = chunk.add_constant(number(1.1));
    chunk.write(OP_CONSTANT.to_byte(), 123);
    chunk.write(constant_index as u8, 123);

    constant_index = chunk.add_constant(number(3.3));
    chunk.write(OP_CONSTANT.to_byte(), 123);
    chunk.write(constant_index as u8, 123);

    chunk.write(OP_ADD.to_byte(), 123); // 1.1 + 3.3 = 4.4

    let constant_index = chunk.add_constant(number(2.));
    chunk.write(OP_CONSTANT.to_byte(), 123);
    chunk.write(constant_index as u8, 123);

    chunk.write(OP_DIVIDE.to_byte(), 123); // 4.4 / 2.0 = 2.2
    chunk.write(OP_NEGATE.to_byte(), 123); // - 2.2

    chunk.write(OP_RETURN.to_byte(), 123);

    let mut vm = VM::new(chunk);

    let _ = vm.run();

    assert_eq!(vm.stack[0], number(-2.2));
    assert_eq!(vm.stack.len(), 1);
    assert_eq!(vm.ip, 10);
}

#[test]
fn arithmetic_follows_binary32_with_precedence() {
    let expected = -54.55f32 * (2.0f32 + 6.0f32);
    assert_eq!(evaluate("-54.55 * (2.0 + 6)"), number(expected));
    assert_eq!(evaluate("1 + 2 * 3 - 4 / 8"), number(1.0 + 6.0 - 0.5));
    assert_eq!(evaluate("(1 + 2) * 3"), number(9.0));
    assert_eq!(evaluate("10 - 4 - 3"), number(3.0));
    assert_eq!(evaluate("0.1 + 0.2"), number(0.1f32 + 0.2f32));
}

#[test]
fn precedence_example_evaluates() {
    // 5 - 4 > 3 * 2 is false; !nil is true; false == true is false; ! gives true.
    assert_eq!(evaluate("!(5 - 4 > 3 * 2 == !nil)"), Value::VAL_BOOL(true));
    assert_eq!(evaluate("-2 * 3 + 1 < 0"), Value::VAL_BOOL(true));
}

#[test]
fn string_equality_compares_contents() {
    assert_eq!(evaluate(r#""test" == "test""#), Value::VAL_BOOL(true));
    assert_eq!(evaluate(r#""test" == "tests""#), Value::VAL_BOOL(false));
    assert_eq!(evaluate(r#""test" != "test""#), Value::VAL_BOOL(false));
}

#[test]
fn strings_concatenate_left_to_right() {
    assert_eq!(evaluate(r#""st" + "ri" + "ng""#), string("string"));
    assert_eq!(evaluate(r#""" + "a""#), string("a"));
}

#[test]
fn truthiness_of_values() {
    assert_eq!(evaluate("!nil"), Value::VAL_BOOL(true));
    assert_eq!(evaluate("!false"), Value::VAL_BOOL(true));
    assert_eq!(evaluate("!0"), Value::VAL_BOOL(false));
    assert_eq!(evaluate(r#"!"""#), Value::VAL_BOOL(false));
    assert_eq!(evaluate("!true"), Value::VAL_BOOL(false));
}

#[test]
fn mismatched_operands_are_runtime_errors() {
    assert_eq!(failure(r#""a" - 1"#), InterpretError::RUNTIME_ERROR);
    assert_eq!(failure("true * 2"), InterpretError::RUNTIME_ERROR);
    assert_eq!(failure(r#""a" + 1"#), InterpretError::RUNTIME_ERROR);
    assert_eq!(failure("-nil"), InterpretError::RUNTIME_ERROR);
    assert_eq!(failure("nil < 1"), InterpretError::RUNTIME_ERROR);

    let report = VM::run_source(b"1 *\n\"a\" - 1".to_vec());
    assert_eq!(report.result, Err(InterpretError::RUNTIME_ERROR));
    let fault = report.fault.unwrap();
    assert_eq!(fault.kind, FaultKind::OperandsMustBeNumbers);
    assert_eq!(fault.line, 2);

    let report = VM::run_source(b"-\"x\"".to_vec());
    assert_eq!(report.fault.unwrap().kind, FaultKind::OperandMustBeNumber);

    let report = VM::run_source(b"true + nil".to_vec());
    assert_eq!(report.fault.unwrap().kind, FaultKind::OperandsMustBeNumbersOrStrings);
}

#[test]
fn compile_errors_come_before_execution() {
    assert_eq!(failure("1 +"), InterpretError::COMPILE_ERROR);
    let report = VM::run_source(b"(1".to_vec());
    assert_eq!(report.result, Err(InterpretError::COMPILE_ERROR));
    assert!(report.fault.is_none());
    assert_eq!(report.diagnostics.len(), 1);
}

#[test]
fn equality_across_types_is_false() {
    assert_eq!(evaluate("1 == true"), Value::VAL_BOOL(false));
    assert_eq!(evaluate("nil == nil"), Value::VAL_BOOL(true));
    assert_eq!(evaluate(r#"nil == """#), Value::VAL_BOOL(false));
    assert_eq!(evaluate("0 == -0"), Value::VAL_BOOL(true));
}

#[test]
fn division_by_zero_follows_ieee() {
    assert_eq!(evaluate("1 / 0"), number(f32::INFINITY));
    assert_eq!(evaluate("-1 / 0"), number(f32::NEG_INFINITY));
    match evaluate("0 / 0") {
        Value::VAL_NUMBER(bits) => assert!(f32::from_bits(bits).is_nan()),
        other => panic!("expected a number, got {:?}", other),
    }
}

#[test]
fn nan_comparisons_follow_the_lowering() {
    // `<` and `>` are false against NaN; `>=` and `<=` are lowered to a
    // negated `<` and `>`, so they come out true.
    assert_eq!(evaluate("0/0 < 1"), Value::VAL_BOOL(false));
    assert_eq!(evaluate("0/0 > 1"), Value::VAL_BOOL(false));
    assert_eq!(evaluate("0/0 >= 1"), Value::VAL_BOOL(true));
    assert_eq!(evaluate("0/0 <= 1"), Value::VAL_BOOL(true));
    assert_eq!(evaluate("0/0 == 0/0"), Value::VAL_BOOL(false));
}

#[test]
fn comparisons_of_numbers() {
    assert_eq!(evaluate("2 > 1"), Value::VAL_BOOL(true));
    assert_eq!(evaluate("-2 > -1"), Value::VAL_BOOL(false));
    assert_eq!(evaluate("-2 < 1"), Value::VAL_BOOL(true));
    assert_eq!(evaluate("1 >= 1"), Value::VAL_BOOL(true));
    assert_eq!(evaluate("1 <= 0.5"), Value::VAL_BOOL(false));
}

#[test]
fn stack_overflow_is_a_runtime_error() {
    let depth = 257;
    let mut source = String::new();
    for _ in 0..depth - 1 {
        source.push_str("true == (");
    }
    source.push_str("true");
    for _ in 0..depth - 1 {
        source.push(')');
    }
    let report = VM::run_source(source.into_bytes());
    assert_eq!(report.result, Err(InterpretError::RUNTIME_ERROR));
    assert_eq!(report.fault.unwrap().kind, FaultKind::StackOverflow);

    let mut source = String::new();
    for _ in 0..255 {
        source.push_str("true == (");
    }
    source.push_str("true");
    for _ in 0..255 {
        source.push(')');
    }
    assert_eq!(evaluate(&source), Value::VAL_BOOL(true));
}

#[test]
fn malformed_chunks_fail_without_panicking() {
    let mut chunk = Chunk::new();
    chunk.write(OP_ADD.to_byte(), 7);
    let mut vm = VM::new(chunk);
    assert_eq!(vm.run(), Err(InterpretError::RUNTIME_ERROR));
    assert_eq!(vm.fault.unwrap().kind, FaultKind::StackUnderflow);
    assert_eq!(vm.fault.unwrap().line, 7);

    let mut chunk = Chunk::new();
    chunk.write(200, 1);
    let mut vm = VM::new(chunk);
    assert_eq!(vm.run(), Err(InterpretError::RUNTIME_ERROR));
    assert_eq!(vm.fault.unwrap().kind, FaultKind::BadInstruction);

    let mut vm = VM::new(Chunk::new());
    assert_eq!(vm.run(), Err(InterpretError::RUNTIME_ERROR));
}

#[test]
fn interpret_succeeds_on_valid_input() {
    assert_eq!(VM::interpret(b"1 + 2".to_vec()), Ok(()));
    assert_eq!(evaluate("1 + 2"), number(3.0));
}

#[test]
fn fault_messages_name_the_problem() {
    assert_eq!(FaultKind::OperandMustBeNumber.message(), "Operand must be a number.");
    assert_eq!(FaultKind::OperandsMustBeNumbers.message(), "Operands must be numbers.");
    assert_eq!(FaultKind::StackOverflow.message(), "Stack overflow.");
    let report = VM::run_source(b"1 +\n\n  true".to_vec());
    let fault = report.fault.unwrap();
    assert_eq!(fault.kind, FaultKind::OperandsMustBeNumbersOrStrings);
    assert_eq!(fault.line, 3);
    assert_eq!(report.chunk.lines, vec![1, 1, 3, 3, 3]);
}
