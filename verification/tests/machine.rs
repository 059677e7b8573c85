use loxvm::chunk::Chunk;
use loxvm::compiler::{OpCode, Precedence};
use loxvm::value::{Value, ValueType};
use loxvm::vm::{RunOutcome, RuntimeError, VM};

fn number(bits: f64) -> Value {
    Value::new(ValueType::Number, bits.to_bits())
}

/// A chunk built by hand from instruction bytes and pool values.
fn chunk_of(code: &[u8], constants: &[Value]) -> Chunk {
    let mut chunk = Chunk::new();
    for value in constants {
        chunk.add_constant(*value).unwrap();
    }
    for byte in code {
        chunk.write(*byte, 1);
    }
    chunk
}

#[test]
fn return_pops_and_reports_the_top_value() {
    let chunk = chunk_of(&[1, 0, 0], &[number(42.0)]);
    let mut vm = VM::new(chunk);
    match vm.run() {
        RunOutcome::Done { value } => assert_eq!(f64::from_bits(value.value), 42.0),
        other => panic!("expected the final value, got {:?}", other),
    }
    assert!(vm.stack.is_empty());
}

#[test]
fn binary_pops_right_then_left() {
    let chunk = chunk_of(&[1, 0, 1, 1, 3, 0], &[number(10.0), number(4.0)]);
    let mut vm = VM::new(chunk);
    match vm.run() {
        RunOutcome::NeedBinary { op, left, right } => {
            assert_eq!(op, OpCode::Subtract);
            assert_eq!(f64::from_bits(left.value), 10.0);
            assert_eq!(f64::from_bits(right.value), 4.0);
            vm.resume(number(10.0 - 4.0));
        }
        other => panic!("expected an arithmetic request, got {:?}", other),
    }
    match vm.run() {
        RunOutcome::Done { value } => assert_eq!(f64::from_bits(value.value), 6.0),
        other => panic!("expected the final value, got {:?}", other),
    }
}

#[test]
fn return_on_empty_stack_underflows() {
    let chunk = chunk_of(&[0], &[]);
    let mut vm = VM::new(chunk);
    assert!(matches!(
        vm.run(),
        RunOutcome::Fault { error: RuntimeError::StackUnderflow }
    ));
}

#[test]
fn binary_without_two_operands_underflows() {
    let chunk = chunk_of(&[1, 0, 2, 0], &[number(1.0)]);
    let mut vm = VM::new(chunk);
    assert!(matches!(
        vm.run(),
        RunOutcome::Fault { error: RuntimeError::StackUnderflow }
    ));
}

#[test]
fn unknown_opcode_is_a_decode_error() {
    let chunk = chunk_of(&[9], &[]);
    let mut vm = VM::new(chunk);
    assert!(matches!(
        vm.run(),
        RunOutcome::Fault { error: RuntimeError::UnknownOpcode { byte: 9 } }
    ));
}

#[test]
fn empty_instruction_stream_is_truncated() {
    let chunk = chunk_of(&[], &[]);
    let mut vm = VM::new(chunk);
    assert!(matches!(
        vm.run(),
        RunOutcome::Fault { error: RuntimeError::TruncatedInstruction }
    ));
}

#[test]
fn constant_missing_its_index_byte_is_truncated() {
    let chunk = chunk_of(&[1], &[number(1.0)]);
    let mut vm = VM::new(chunk);
    assert!(matches!(
        vm.run(),
        RunOutcome::Fault { error: RuntimeError::TruncatedInstruction }
    ));
}

#[test]
fn constant_index_past_the_pool_is_a_decode_error() {
    let chunk = chunk_of(&[1, 3, 0], &[number(1.0)]);
    let mut vm = VM::new(chunk);
    assert!(matches!(
        vm.run(),
        RunOutcome::Fault { error: RuntimeError::ConstantOutOfRange { index: 3 } }
    ));
}

#[test]
fn opcode_numbering_is_the_binary_contract() {
    assert_eq!(OpCode::from_u8(0), Some(OpCode::Return));
    assert_eq!(OpCode::from_u8(1), Some(OpCode::Constant));
    assert_eq!(OpCode::from_u8(2), Some(OpCode::Add));
    assert_eq!(OpCode::from_u8(3), Some(OpCode::Subtract));
    assert_eq!(OpCode::from_u8(4), Some(OpCode::Multiply));
    assert_eq!(OpCode::from_u8(5), Some(OpCode::Divide));
    assert_eq!(OpCode::from_u8(6), None);
    assert_eq!(OpCode::from_u8(255), None);
    assert_eq!(OpCode::Return.as_byte(), 0);
    assert_eq!(OpCode::Constant.as_byte(), 1);
    assert_eq!(OpCode::Add.as_byte(), 2);
    assert_eq!(OpCode::Subtract.as_byte(), 3);
    assert_eq!(OpCode::Multiply.as_byte(), 4);
    assert_eq!(OpCode::Divide.as_byte(), 5);
}

#[test]
fn precedence_next_climbs_the_scale() {
    assert_eq!(Precedence::Lowest.next(), Precedence::Assignment);
    assert_eq!(Precedence::Assignment.next(), Precedence::Or);
    assert_eq!(Precedence::Or.next(), Precedence::And);
    assert_eq!(Precedence::And.next(), Precedence::Equality);
    assert_eq!(Precedence::Equality.next(), Precedence::Comparison);
    assert_eq!(Precedence::Comparison.next(), Precedence::Term);
    assert_eq!(Precedence::Term.next(), Precedence::Factor);
    assert_eq!(Precedence::Factor.next(), Precedence::Unary);
    assert_eq!(Precedence::Unary.next(), Precedence::Call);
    assert_eq!(Precedence::Call.next(), Precedence::Lowest);
}

#[test]
fn pool_capacity_is_exactly_256() {
    let mut chunk = Chunk::new();
    for i in 0..256 {
        let index = chunk.add_constant(number(i as f64)).unwrap();
        assert_eq!(index as usize, i);
    }
    assert_eq!(chunk.add_constant(number(999.0)), None);
    assert_eq!(chunk.constants.len(), 256);
}

#[test]
fn write_keeps_code_and_lines_in_lockstep() {
    let mut chunk = Chunk::new();
    chunk.write(1, 7);
    chunk.write(0, 8);
    assert_eq!(chunk.code, vec![1, 0]);
    assert_eq!(chunk.lines, vec![7, 8]);
}

#[test]
fn set_constant_binds_one_pool_slot() {
    let mut chunk = Chunk::new();
    chunk.add_constant(number(0.0)).unwrap();
    chunk.add_constant(number(0.0)).unwrap();
    chunk.set_constant(1, number(2.5));
    assert_eq!(f64::from_bits(chunk.constants[0].value), 0.0);
    assert_eq!(f64::from_bits(chunk.constants[1].value), 2.5);
}

#[test]
fn write_constant_appends_the_index_byte() {
    let mut chunk = Chunk::new();
    let index = chunk.write_constant(number(3.0), 4).unwrap();
    assert_eq!(index, 0);
    assert_eq!(chunk.code, vec![0]);
    assert_eq!(chunk.lines, vec![4]);
}
