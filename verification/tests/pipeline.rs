use loxvm::chunk::Chunk;
use loxvm::compiler::{CompileError, OpCode, Parser};
use loxvm::value::{Value, ValueType};
use loxvm::vm::{RunOutcome, RuntimeError, VM};

/// The source buffer as the scanner expects it: raw bytes with the NUL
/// end-of-input sentinel appended.
fn source_bytes(text: &str) -> Vec<u8> {
    let mut bytes: Vec<u8> = text.as_bytes().to_vec();
    bytes.push(0);
    bytes
}

/// Compiles a source text and binds every recorded numeral's parsed bit
/// pattern into the constant pool.
fn compile_source(text: &str) -> Result<Chunk, CompileError> {
    let bytes = source_bytes(text);
    let mut parser = Parser::new(&bytes);
    parser.compile()?;
    let numerals = parser.numerals.clone();
    let mut chunk = parser.get_chunk();
    for (index, token) in numerals {
        let lexeme = std::str::from_utf8(&bytes[token.start..token.start + token.length]).unwrap();
        let number: f64 = lexeme.parse().unwrap();
        chunk.set_constant(index as usize, Value::new(ValueType::Number, number.to_bits()));
    }
    Ok(chunk)
}

/// Runs a chunk to completion, computing each requested binary operation in
/// 64-bit floating point.
fn execute(chunk: Chunk) -> Result<f64, RuntimeError> {
    let mut vm = VM::new(chunk);
    loop {
        match vm.run() {
            RunOutcome::NeedBinary { op, left, right } => {
                let l = f64::from_bits(left.value);
                let r = f64::from_bits(right.value);
                let result = match op {
                    OpCode::Add => l + r,
                    OpCode::Subtract => l - r,
                    OpCode::Multiply => l * r,
                    OpCode::Divide => l / r,
                    _ => panic!("machine requested arithmetic for a non-arithmetic opcode"),
                };
                vm.resume(Value::new(ValueType::Number, result.to_bits()));
            }
            RunOutcome::Done { value } => return Ok(f64::from_bits(value.value)),
            RunOutcome::Fault { error } => return Err(error),
        }
    }
}

fn evaluate(text: &str) -> f64 {
    execute(compile_source(text).unwrap()).unwrap()
}

#[test]
fn precedence_multiplication_binds_tighter() {
    let chunk = compile_source("1 + 2 * 3").unwrap();
    // Constant 0, Constant 1, Constant 2, Multiply, Add, Return
    assert_eq!(chunk.code, vec![1, 0, 1, 1, 1, 2, 4, 2, 0]);
    assert_eq!(evaluate("1 + 2 * 3"), 7.0);
}

#[test]
fn subtraction_is_left_associative() {
    let chunk = compile_source("10 - 3 - 2").unwrap();
    // (10 - 3) - 2: the first Subtract is emitted before the third constant
    assert_eq!(chunk.code, vec![1, 0, 1, 1, 3, 1, 2, 3, 0]);
    assert_eq!(evaluate("10 - 3 - 2"), 5.0);
    assert_ne!(evaluate("10 - 3 - 2"), 9.0);
}

#[test]
fn division_is_left_associative() {
    assert_eq!(evaluate("100 / 10 / 2"), 5.0);
}

#[test]
fn minimal_round_trip() {
    let chunk = compile_source("42").unwrap();
    assert_eq!(chunk.code, vec![1, 0, 0]);
    assert_eq!(chunk.constants.len(), 1);
    assert_eq!(chunk.constants[0].value, 42.0f64.to_bits());
    assert_eq!(execute(chunk).unwrap(), 42.0);
}

#[test]
fn numeral_lexeme_is_recorded_for_binding() {
    let bytes = source_bytes("42");
    let mut parser = Parser::new(&bytes);
    parser.compile().unwrap();
    assert_eq!(parser.numerals.len(), 1);
    let (index, token) = parser.numerals[0];
    assert_eq!(index, 0);
    assert_eq!(&bytes[token.start..token.start + token.length], b"42");
}

#[test]
fn fractional_literals_evaluate() {
    assert_eq!(evaluate("1.5 + 2.25"), 3.75);
}

#[test]
fn constant_pool_holds_256_literals() {
    let source = (0..256).map(|i| i.to_string()).collect::<Vec<_>>().join(" + ");
    let chunk = compile_source(&source).unwrap();
    assert_eq!(chunk.constants.len(), 256);
    // every emitted pool index is in range
    let mut offset = 0;
    while offset < chunk.code.len() {
        if chunk.code[offset] == 1 {
            assert!((chunk.code[offset + 1] as usize) < chunk.constants.len());
            offset += 2;
        } else {
            offset += 1;
        }
    }
    let expected: f64 = (0..256).map(|i| i as f64).sum();
    assert_eq!(execute(chunk).unwrap(), expected);
}

#[test]
fn constant_pool_overflows_on_257th_literal() {
    let source = (0..257).map(|i| i.to_string()).collect::<Vec<_>>().join(" + ");
    let bytes = source_bytes(&source);
    let mut parser = Parser::new(&bytes);
    match parser.compile() {
        Err(CompileError::TooManyConstants { .. }) => {}
        other => panic!("expected the defined overflow error, got {:?}", other),
    }
}

#[test]
fn division_by_zero_is_infinity() {
    let result = evaluate("1 / 0");
    assert!(result.is_infinite());
    assert!(result > 0.0);
}

#[test]
fn whitespace_only_expects_expression() {
    let result = compile_source(" \t\r\n   ");
    match result {
        Err(CompileError::ExpectedExpression { line }) => assert_eq!(line, 2),
        other => panic!("expected \"expected expression\", got {:?}", other),
    }
}

#[test]
fn empty_input_expects_expression() {
    match compile_source("") {
        Err(CompileError::ExpectedExpression { line }) => assert_eq!(line, 1),
        other => panic!("expected \"expected expression\", got {:?}", other),
    }
}

#[test]
fn stack_is_empty_after_the_final_pop() {
    let chunk = compile_source("1 + 2").unwrap();
    let mut vm = VM::new(chunk);
    loop {
        match vm.run() {
            RunOutcome::NeedBinary { left, right, .. } => {
                let sum = f64::from_bits(left.value) + f64::from_bits(right.value);
                vm.resume(Value::new(ValueType::Number, sum.to_bits()));
            }
            RunOutcome::Done { value } => {
                assert_eq!(f64::from_bits(value.value), 3.0);
                break;
            }
            RunOutcome::Fault { error } => panic!("unexpected fault {:?}", error),
        }
    }
    assert!(vm.stack.is_empty());
}

#[test]
fn unclassified_byte_is_a_scan_error() {
    match compile_source("1 + ~") {
        Err(CompileError::ScanError { line }) => assert_eq!(line, 1),
        other => panic!("expected a scan error, got {:?}", other),
    }
}

#[test]
fn identifier_expects_expression() {
    assert!(matches!(
        compile_source("foo"),
        Err(CompileError::ExpectedExpression { .. })
    ));
}

#[test]
fn string_literal_expects_expression() {
    assert!(matches!(
        compile_source("\"abc\""),
        Err(CompileError::ExpectedExpression { .. })
    ));
}

#[test]
fn minus_without_operand_expects_expression() {
    assert!(matches!(
        compile_source("- 3"),
        Err(CompileError::ExpectedExpression { .. })
    ));
}

#[test]
fn trailing_tokens_after_one_expression_are_ignored() {
    let chunk = compile_source("1 2").unwrap();
    assert_eq!(chunk.code, vec![1, 0, 0]);
    assert_eq!(execute(chunk).unwrap(), 1.0);
}

#[test]
fn error_line_is_reported_across_newlines() {
    match compile_source("1 +\n\n~") {
        Err(CompileError::ScanError { line }) => assert_eq!(line, 3),
        other => panic!("expected a scan error on line 3, got {:?}", other),
    }
}
