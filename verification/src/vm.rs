use vstd::prelude::*;

use crate::chunk::Chunk;
use crate::compiler::OpCode;
use crate::value::Value;

verus! {

/// A fatal condition of the execution loop. Each one terminates the run:
/// there is no retry and no partial recovery.
#[derive(Debug, Clone, Copy, PartialEq, Eq, Structural)]
pub enum RuntimeError {
    /// A pop found the operand stack empty.
    StackUnderflow,
    /// The fetched byte encodes no instruction.
    UnknownOpcode { byte: u8 },
    /// The instruction stream ended where an instruction or the index byte
    /// of a Constant instruction was required.
    TruncatedInstruction,
    /// A Constant instruction's index byte points past the constant pool.
    ConstantOutOfRange { index: u8 },
}

/// What a call to `run` ends with: a request for one binary arithmetic
/// result (the machine itself never interprets number payloads), the final
/// value reported by Return, or a fatal error.
#[derive(Debug, Clone, Copy, PartialEq, Eq, Structural)]
pub enum RunOutcome {
    NeedBinary { op: OpCode, left: Value, right: Value },
    Done { value: Value },
    Fault { error: RuntimeError },
}

/// The bytes encoding the binary arithmetic instructions.
pub open spec fn is_binary_byte(b: u8) -> bool {
    2 <= b && b <= 5
}

pub open spec fn binop_of_byte(b: u8) -> OpCode {
    if b == 2 {
        OpCode::Add
    } else if b == 3 {
        OpCode::Subtract
    } else if b == 4 {
        OpCode::Multiply
    } else {
        OpCode::Divide
    }
}

/// The meaning of the instruction stream from `ip` on, over a constant pool
/// and an operand stack: the outcome the machine reports next, together with
/// the instruction pointer and the stack it holds at that point. Constant
/// instructions are folded in; a binary instruction stops the simulation
/// with its two popped operands, since the arithmetic itself is the
/// caller's.
pub open spec fn spec_run(code: Seq<u8>, pool: Seq<Value>, ip: int, stack: Seq<Value>) -> (
    RunOutcome,
    int,
    Seq<Value>,
)
    decreases code.len() - ip,
{
    if !(0 <= ip && ip < code.len()) {
        (RunOutcome::Fault { error: RuntimeError::TruncatedInstruction }, ip, stack)
    } else {
        let b = code[ip];
        if b == 0 {
            if stack.len() >= 1 {
                (RunOutcome::Done { value: stack.last() }, ip + 1, stack.drop_last())
            } else {
                (RunOutcome::Fault { error: RuntimeError::StackUnderflow }, ip, stack)
            }
        } else if b == 1 {
            if !(ip + 1 < code.len()) {
                (RunOutcome::Fault { error: RuntimeError::TruncatedInstruction }, ip, stack)
            } else if !((code[ip + 1] as int) < pool.len()) {
                (
                    RunOutcome::Fault { error: RuntimeError::ConstantOutOfRange { index: code[ip + 1] } },
                    ip,
                    stack,
                )
            } else {
                spec_run(code, pool, ip + 2, stack.push(pool[code[ip + 1] as int]))
            }
        } else if is_binary_byte(b) {
            if stack.len() >= 2 {
                (
                    RunOutcome::NeedBinary {
                        op: binop_of_byte(b),
                        left: stack[stack.len() - 2],
                        right: stack.last(),
                    },
                    ip + 1,
                    stack.take(stack.len() - 2),
                )
            } else {
                (RunOutcome::Fault { error: RuntimeError::StackUnderflow }, ip, stack)
            }
        } else {
            (RunOutcome::Fault { error: RuntimeError::UnknownOpcode { byte: b } }, ip, stack)
        }
    }
}

/// Well-formedness of the instruction stream from `ip` with `h` values on
/// the stack: every instruction decodes, every Constant index lies inside
/// the pool, no pop underflows, and the terminating Return finds exactly one
/// value.
pub open spec fn safe_from(code: Seq<u8>, nconst: int, ip: int, h: int) -> bool
    decreases code.len() - ip,
{
    &&& 0 <= ip < code.len()
    &&& {
        let b = code[ip];
        if b == 0 {
            h == 1
        } else if b == 1 {
            &&& ip + 1 < code.len()
            &&& (code[ip + 1] as int) < nconst
            &&& safe_from(code, nconst, ip + 2, h + 1)
        } else if is_binary_byte(b) {
            h >= 2 && safe_from(code, nconst, ip + 1, h - 1)
        } else {
            false
        }
    }
}

/// A chunk is well formed when executing it from the start with an empty
/// stack is safe.
pub open spec fn chunk_well_formed(c: Chunk) -> bool {
    &&& c.wf()
    &&& safe_from(c.code@, c.constants@.len() as int, 0, 0)
}

/// Stack discipline: from a safe state the machine never faults. When
/// Return reports the final value, the stack held exactly that one value
/// just before the pop and is empty just after; when the machine requests an
/// arithmetic result, the state stays safe once the result is pushed back.
pub proof fn lemma_stack_discipline(code: Seq<u8>, pool: Seq<Value>, ip: int, stack: Seq<Value>)
    requires
        safe_from(code, pool.len() as int, ip, stack.len() as int),
    ensures
        ({
            let r = spec_run(code, pool, ip, stack);
            &&& !(r.0 is Fault)
            &&& (r.0 is Done ==> r.2.len() == 0)
            &&& (r.0 is NeedBinary ==> safe_from(code, pool.len() as int, r.1, r.2.len() as int + 1))
        }),
    decreases code.len() - ip,
{
    let b = code[ip];
    if b == 1 {
        lemma_stack_discipline(code, pool, ip + 2, stack.push(pool[code[ip + 1] as int]));
    }
}

/// The virtual machine: the chunk it executes, the instruction pointer into
/// the chunk's instruction stream, and the operand stack. `awaiting` is set
/// while the machine waits for the caller to hand back a requested
/// arithmetic result through `resume`. The chunk is read-only here: the
/// machine never changes it.
pub struct VM {
    pub chunk: Chunk,
    pub ip: usize,
    pub stack: Vec<Value>,
    pub awaiting: bool,
}

impl VM {
    pub open spec fn wf(self) -> bool {
        &&& self.chunk.wf()
        &&& self.ip <= self.chunk.code@.len()
    }

    /// A machine ready to execute a compiled chunk from its first
    /// instruction with an empty operand stack.
    pub fn new(chunk: Chunk) -> (vm: VM)
        requires
            chunk.wf(),
        ensures
            vm.wf(),
            vm.chunk == chunk,
            vm.ip == 0,
            vm.stack@ == Seq::<Value>::empty(),
            !vm.awaiting,
    {
        VM { chunk, ip: 0, stack: Vec::new(), awaiting: false }
    }

    /// Executes instructions until the machine needs one binary arithmetic
    /// result, reports the final value through Return, or faults. The
    /// outcome and the machine's new state are exactly those of the
    /// instruction stream's meaning, `spec_run`; on a well-formed stream a
    /// fault can never happen.
    #[verifier::loop_isolation(false)]
    pub fn run(&mut self) -> (outcome: RunOutcome)
        requires
            old(self).wf(),
            !old(self).awaiting,
        ensures
            final(self).wf(),
            final(self).chunk == old(self).chunk,
            final(self).awaiting == (outcome is NeedBinary),
            ({
                let r = spec_run(
                    old(self).chunk.code@,
                    old(self).chunk.constants@,
                    old(self).ip as int,
                    old(self).stack@,
                );
                &&& outcome == r.0
                &&& final(self).ip as int == r.1
                &&& final(self).stack@ == r.2
            }),
            safe_from(
                old(self).chunk.code@,
                old(self).chunk.constants@.len() as int,
                old(self).ip as int,
                old(self).stack@.len() as int,
            ) ==> {
                &&& !(outcome is Fault)
                &&& (outcome is Done ==> final(self).stack@.len() == 0)
                &&& (outcome is NeedBinary ==> safe_from(
                    old(self).chunk.code@,
                    old(self).chunk.constants@.len() as int,
                    final(self).ip as int,
                    final(self).stack@.len() as int + 1,
                ))
            },
    {
        let ghost code = self.chunk.code@;
        let ghost pool = self.chunk.constants@;
        let ghost ip0 = self.ip as int;
        let ghost st0 = self.stack@;
        proof {
            if safe_from(code, pool.len() as int, ip0, st0.len() as int) {
                lemma_stack_discipline(code, pool, ip0, st0);
            }
        }
        loop
            invariant
                self.wf(),
                !self.awaiting,
                self.chunk == old(self).chunk,
                spec_run(code, pool, ip0, st0) == spec_run(
                    code,
                    pool,
                    self.ip as int,
                    self.stack@,
                ),
            decreases code.len() - self.ip,
        {
            if self.ip >= self.chunk.code.len() {
                return RunOutcome::Fault { error: RuntimeError::TruncatedInstruction };
            }
            let b = self.chunk.code[self.ip];
            if b == 1 {
                if self.ip + 1 >= self.chunk.code.len() {
                    return RunOutcome::Fault { error: RuntimeError::TruncatedInstruction };
                }
                let index = self.chunk.code[self.ip + 1];
                if index as usize >= self.chunk.constants.len() {
                    return RunOutcome::Fault { error: RuntimeError::ConstantOutOfRange { index } };
                }
                let constant = self.chunk.constants[index as usize];
                self.stack.push(constant);
                self.ip = self.ip + 2;
            } else if b == 0 {
                match self.stack.pop() {
                    Some(value) => {
                        self.ip = self.ip + 1;
                        return RunOutcome::Done { value };
                    },
                    None => {
                        return RunOutcome::Fault { error: RuntimeError::StackUnderflow };
                    },
                }
            } else if 2 <= b && b <= 5 {
                if self.stack.len() < 2 {
                    return RunOutcome::Fault { error: RuntimeError::StackUnderflow };
                }
                let ghost before = self.stack@;
                let right = self.stack.pop().unwrap();
                let left = self.stack.pop().unwrap();
                proof {
                    assert(self.stack@ =~= before.take(before.len() - 2));
                }
                let op = OpCode::from_u8(b).unwrap();
                self.ip = self.ip + 1;
                self.awaiting = true;
                return RunOutcome::NeedBinary { op, left, right };
            } else {
                return RunOutcome::Fault { error: RuntimeError::UnknownOpcode { byte: b } };
            }
        }
    }

    /// Hands back the arithmetic result the last `run` asked for; the
    /// machine pushes it and is ready to run on.
    pub fn resume(&mut self, result: Value)
        requires
            old(self).wf(),
            old(self).awaiting,
        ensures
            final(self).wf(),
            final(self).chunk == old(self).chunk,
            final(self).ip == old(self).ip,
            final(self).stack@ == old(self).stack@.push(result),
            !final(self).awaiting,
    {
        self.stack.push(result);
        self.awaiting = false;
    }
}

} // verus!
