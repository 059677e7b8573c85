use vstd::prelude::*;

verus! {

/// The tag of a runtime value. A single variant exists today; the set is
/// kept open so future value kinds extend the tag rather than redesign the
/// operand stack or the opcode set.
#[derive(Debug, Clone, Copy, PartialEq, Eq, Structural)]
pub enum ValueType {
    Number,
}

/// A runtime value. For a `Number` the payload is the bit pattern of a
/// 64-bit IEEE-754 double. The pipeline itself never interprets the bits:
/// the caller produces them when binding constants and consumes them when
/// asked to perform arithmetic.
#[derive(Debug, Clone, Copy, PartialEq, Eq, Structural)]
pub struct Value {
    pub value_type: ValueType,
    pub value: u64,
}

impl Value {
    pub fn new(value_type: ValueType, value: u64) -> (v: Value)
        ensures
            v == (Value { value_type, value }),
    {
        Value { value_type, value }
    }
}

} // verus!
