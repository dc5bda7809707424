use rlox::compiler::Compiler;
use rlox::object::{Object, ObjectType};
use rlox::op_code::OpCode;
use rlox::op_code::OpCode::{
    OP_ADD, OP_CONSTANT, OP_DIVIDE, OP_EQUAL, OP_GREATER, OP_LESS, OP_MULTIPLY, OP_NEGATE,
    OP_NIL, OP_NOT, OP_RETURN, OP_SUBTRACT, OP_TRUE,
};
use rlox::token::TokenType;
use rlox::value::Value;

fn number(x: f32) -> Value {
    Value::VAL_NUMBER(x.to_bits())
}

fn string(s: &str) -> Value {
    Value::VAL_OBJECT(Object {
        object_type: ObjectType::OBJ_STRING(String::from(s)),
    })
}

fn compile(code: &str) -> (bool, Compiler) {
    let mut compiler = Compiler::new();
    let result = compiler.compile(code.to_string().into_bytes());
    (result, compiler)
}

#[test]
fn parse_precedence_number_order_should_succeed() {
    let code = "-54.55 * (2.0 + 6)"; // -a.b * (c + d)
    let (result, compiler) = compile(code);
    assert!(result);
    let chunk = &compiler.chunk;

    // chunk constants
    assert_eq!(chunk.constants.values[0], number(54.55));
    assert_eq!(chunk.constants.values[1], number(2.0));
    assert_eq!(chunk.constants.values[2], number(6.0));

    // chunk code instructions
    assert_eq!(chunk.code[0..2], [0, 0]);
    assert_eq!(chunk.code[2], OP_NEGATE.to_byte());
    assert_eq!(chunk.code[3..5], [0, 1]);
    assert_eq!(chunk.code[5..7], [0, 2]);
    assert_eq!(chunk.code[7], OP_ADD.to_byte());
    assert_eq!(chunk.code[8], OP_MULTIPLY.to_byte());
    assert_eq!(chunk.code[9], OP_RETURN.to_byte());
}

#[test]
fn parse_precedence_boolean_should_succeed() {
    let code = "!(5 - 4 > 3 * 2 == !nil)";
    let (result, compiler) = compile(code);
    assert!(result);
    let chunk = &compiler.chunk;

    // chunk constants
    assert_eq!(chunk.constants.values[0], number(5.0));
    assert_eq!(chunk.constants.values[1], number(4.0));
    assert_eq!(chunk.constants.values[2], number(3.0));
    assert_eq!(chunk.constants.values[3], number(2.0));

    assert_eq!(chunk.code[0..2], [0, 0]);
    assert_eq!(chunk.code[2..4], [0, 1]);
    assert_eq!(chunk.code[4], OP_SUBTRACT.to_byte());
    assert_eq!(chunk.code[5..7], [0, 2]);
    assert_eq!(chunk.code[7..9], [0, 3]);
    assert_eq!(chunk.code[9], OP_MULTIPLY.to_byte());
    assert_eq!(chunk.code[10], OP_GREATER.to_byte());
    assert_eq!(chunk.code[11], OP_NIL.to_byte());
    assert_eq!(chunk.code[12], OP_NOT.to_byte());
    assert_eq!(chunk.code[13], OP_EQUAL.to_byte());
    assert_eq!(chunk.code[14], OP_NOT.to_byte());
    assert_eq!(chunk.code[15], OP_RETURN.to_byte());
}

#[test]
fn parse_precedence_string_assert_should_succeed() {
    let code = r#""test" == "test""#;
    let (result, compiler) = compile(code);
    assert!(result);
    let chunk = &compiler.chunk;

    // chunk constants: the text between the quotes
    let string = string("test");
    assert_eq!(chunk.constants.values[0], string);
    assert_eq!(chunk.constants.values[1], string);

    assert_eq!(chunk.code[0..2], [0, 0]);
    assert_eq!(chunk.code[2..4], [0, 1]);
    assert_eq!(chunk.code[4], OP_EQUAL.to_byte());
    assert_eq!(chunk.code[5], OP_RETURN.to_byte());
}

#[test]
fn parse_precedence_string_concatenation_should_succeed() {
    let code = r#""st" + "ri"+"ng""#;
    let (result, compiler) = compile(code);
    assert!(result);
    let chunk = &compiler.chunk;

    // chunk constants: the text between the quotes
    assert_eq!(chunk.constants.values[0], string("st"));
    assert_eq!(chunk.constants.values[1], string("ri"));
    assert_eq!(chunk.constants.values[2], string("ng"));

    assert_eq!(chunk.code[0..2], [0, 0]);
    assert_eq!(chunk.code[2..4], [0, 1]);
    assert_eq!(chunk.code[4], OP_ADD.to_byte());
    assert_eq!(chunk.code[5..7], [0, 2]);
    assert_eq!(chunk.code[7], OP_ADD.to_byte());
    assert_eq!(chunk.code[8], OP_RETURN.to_byte());
}

#[test]
fn comparison_operators_lower_as_specified() {
    let (ok, compiler) = compile("1 >= 2");
    assert!(ok);
    let code = &compiler.chunk.code;
    assert_eq!(code[4..], [OP_LESS.to_byte(), OP_NOT.to_byte(), OP_RETURN.to_byte()]);

    let (ok, compiler) = compile("1 <= 2");
    assert!(ok);
    let code = &compiler.chunk.code;
    assert_eq!(code[4..], [OP_GREATER.to_byte(), OP_NOT.to_byte(), OP_RETURN.to_byte()]);

    let (ok, compiler) = compile("1 != 2");
    assert!(ok);
    let code = &compiler.chunk.code;
    assert_eq!(code[4..], [OP_EQUAL.to_byte(), OP_NOT.to_byte(), OP_RETURN.to_byte()]);

    let (ok, compiler) = compile("1 < 2 == true");
    assert!(ok);
    let code = &compiler.chunk.code;
    assert_eq!(
        code[4..],
        [OP_LESS.to_byte(), OP_TRUE.to_byte(), OP_EQUAL.to_byte(), OP_RETURN.to_byte()]
    );
}

#[test]
fn operators_of_equal_precedence_associate_left() {
    let (ok, compiler) = compile("8 / 4 / 2");
    assert!(ok);
    let code = &compiler.chunk.code;
    assert_eq!(
        *code,
        vec![0, 0, 0, 1, OP_DIVIDE.to_byte(), 0, 2, OP_DIVIDE.to_byte(), OP_RETURN.to_byte()]
    );
}

#[test]
fn unary_minus_binds_tighter_than_factor() {
    let (ok, compiler) = compile("-1 * 2 + 3");
    assert!(ok);
    let code = &compiler.chunk.code;
    assert_eq!(
        *code,
        vec![
            0,
            0,
            OP_NEGATE.to_byte(),
            0,
            1,
            OP_MULTIPLY.to_byte(),
            0,
            2,
            OP_ADD.to_byte(),
            OP_RETURN.to_byte()
        ]
    );
}

#[test]
fn every_byte_carries_its_source_line() {
    let (ok, compiler) = compile("1 +\n2");
    assert!(ok);
    let chunk = &compiler.chunk;
    assert_eq!(chunk.lines, vec![1, 1, 2, 2, 2, 2]);
    assert_eq!(chunk.count, chunk.code.len());
}

#[test]
fn missing_expression_is_a_compile_error() {
    let (ok, compiler) = compile("1 +");
    assert!(!ok);
    assert!(compiler.parser.had_error);
    assert_eq!(compiler.diagnostics.len(), 1);
    assert_eq!(compiler.diagnostics[0].message, "Expected expression.");
    assert_eq!(compiler.diagnostics[0].token_type, TokenType::TOKEN_EOF);
}

#[test]
fn missing_parenthesis_is_a_compile_error() {
    let (ok, compiler) = compile("(1 + 2");
    assert!(!ok);
    assert_eq!(compiler.diagnostics.len(), 1);
    assert_eq!(compiler.diagnostics[0].message, "Expected ')' after expression.");
}

#[test]
fn trailing_tokens_are_a_compile_error() {
    let (ok, compiler) = compile("1 2");
    assert!(!ok);
    assert_eq!(compiler.diagnostics.len(), 1);
    assert_eq!(compiler.diagnostics[0].message, "Expected end of expression.");
    assert_eq!(compiler.diagnostics[0].start, 2);
}

#[test]
fn only_the_first_error_is_reported() {
    let (ok, compiler) = compile("(+ @ )");
    assert!(!ok);
    assert_eq!(compiler.diagnostics.len(), 1);
    assert_eq!(compiler.diagnostics[0].message, "Unexpected character.");
    assert_eq!(compiler.diagnostics[0].start, 3);
}

#[test]
fn lexical_error_is_reported_with_its_message() {
    let (ok, compiler) = compile("\"open");
    assert!(!ok);
    assert_eq!(compiler.diagnostics[0].token_type, TokenType::TOKEN_ERROR);
    assert_eq!(compiler.diagnostics[0].message, "Unterminated string.");
}

#[test]
fn constant_pool_holds_at_most_256_entries() {
    let fits = vec!["1"; 256].join(" + ");
    let (ok, compiler) = compile(&fits);
    assert!(ok);
    assert_eq!(compiler.chunk.constants.values.len(), 256);
    let code = &compiler.chunk.code;
    assert_eq!(code[code.len() - 3], 255);

    let too_many = vec!["1"; 257].join(" + ");
    let (ok, compiler) = compile(&too_many);
    assert!(!ok);
    assert_eq!(compiler.diagnostics[0].message, "Too many constants in one chunk.");
}

#[test]
fn disassembly_reads_back_what_was_written() {
    let (ok, compiler) = compile("!(5 - 4 > 3 * 2 == !nil)");
    assert!(ok);
    let instructions = compiler.chunk.disassemble_chunk().unwrap();
    let ops: Vec<OpCode> = instructions.iter().map(|i| i.op_code).collect();
    assert_eq!(
        ops,
        vec![
            OP_CONSTANT,
            OP_CONSTANT,
            OP_SUBTRACT,
            OP_CONSTANT,
            OP_CONSTANT,
            OP_MULTIPLY,
            OP_GREATER,
            OP_NIL,
            OP_NOT,
            OP_EQUAL,
            OP_NOT,
            OP_RETURN
        ]
    );
    let mut offset = 0;
    for ins in &instructions {
        assert_eq!(ins.offset, offset);
        let size = 1 + ins.op_code.operand_count();
        assert_eq!(ins.operand.is_some(), size == 2);
        offset += size;
    }
    assert_eq!(offset, compiler.chunk.code.len());
    assert_eq!(instructions[3].operand, Some(2));
}

#[test]
fn a_recompile_starts_afresh() {
    let mut compiler = Compiler::new();
    assert!(!compiler.compile(b"1 +".to_vec()));
    assert!(compiler.compile(b"nil".to_vec()));
    assert!(compiler.diagnostics.is_empty());
    assert_eq!(compiler.chunk.code, vec![OP_NIL.to_byte(), OP_RETURN.to_byte()]);
}

#[test]
fn missing_operand_is_reported_at_the_offending_token() {
    let (ok, compiler) = compile("1 *\n)");
    assert!(!ok);
    assert_eq!(compiler.diagnostics.len(), 1);
    let d = &compiler.diagnostics[0];
    assert_eq!(d.message, "Expected expression.");
    assert_eq!(d.token_type, TokenType::TOKEN_RIGHT_PAREN);
    assert_eq!(d.start, 4);
    assert_eq!(d.line, 2);
    assert_eq!(d.lexeme, ")");
    assert!(compiler.parser.panic_mode);
}

#[test]
fn skipped_error_token_is_reported_once() {
    let (ok, compiler) = compile("1 + @ # 2");
    assert!(!ok);
    assert_eq!(compiler.diagnostics.len(), 1);
    let d = &compiler.diagnostics[0];
    assert_eq!(d.token_type, TokenType::TOKEN_ERROR);
    assert_eq!(d.message, "Unexpected character.");
    assert_eq!(d.start, 4);
}

#[test]
fn disassembly_carries_offsets_and_lines() {
    let (ok, compiler) = compile("1 +\n-2");
    assert!(ok);
    let instructions = compiler.chunk.disassemble_chunk().unwrap();
    let offsets: Vec<usize> = instructions.iter().map(|i| i.offset).collect();
    let lines: Vec<usize> = instructions.iter().map(|i| i.line).collect();
    assert_eq!(offsets, vec![0, 2, 4, 5, 6]);
    assert_eq!(lines, vec![1, 2, 2, 2, 2]);
}
