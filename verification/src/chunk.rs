use vstd::prelude::*;

use crate::value::Value;

verus! {

/// The largest number of constants a chunk can hold: the `Constant`
/// instruction encodes its pool index in a single byte.
pub const MAX_CONSTANTS: usize = 256;

/// A compiled unit: a flat instruction stream, the constant pool its
/// `Constant` instructions index into, and a line-number table kept in
/// lockstep with the instruction stream. A chunk is filled during
/// compilation and read-only afterwards.
#[derive(Debug, Clone)]
pub struct Chunk {
    pub code: Vec<u8>,
    pub constants: Vec<Value>,
    pub lines: Vec<usize>,
}

impl Chunk {
    /// Basic shape of every chunk: one line entry per instruction byte, and
    /// a constant pool whose indices all fit in one byte.
    pub open spec fn wf(self) -> bool {
        &&& self.code@.len() == self.lines@.len()
        &&& self.constants@.len() <= MAX_CONSTANTS
    }

    pub fn new() -> (c: Chunk)
        ensures
            c.wf(),
            c.code@ == Seq::<u8>::empty(),
            c.constants@ == Seq::<Value>::empty(),
            c.lines@ == Seq::<usize>::empty(),
    {
        Chunk { code: Vec::new(), constants: Vec::new(), lines: Vec::new() }
    }

    /// Appends one instruction byte together with the source line it came
    /// from, keeping the two tables in lockstep.
    pub fn write(&mut self, byte: u8, line: usize)
        requires
            old(self).wf(),
        ensures
            final(self).wf(),
            final(self).code@ == old(self).code@.push(byte),
            final(self).lines@ == old(self).lines@.push(line),
            final(self).constants@ == old(self).constants@,
    {
        self.code.push(byte);
        self.lines.push(line);
    }

    /// Appends a value to the constant pool and returns its index, or `None`
    /// when the pool is full: a 257th constant would not be addressable by a
    /// one-byte index and must never wrap around.
    pub fn add_constant(&mut self, value: Value) -> (r: Option<u8>)
        requires
            old(self).wf(),
        ensures
            final(self).wf(),
            final(self).code@ == old(self).code@,
            final(self).lines@ == old(self).lines@,
            old(self).constants@.len() < MAX_CONSTANTS ==> {
                &&& r == Some(old(self).constants@.len() as u8)
                &&& final(self).constants@ == old(self).constants@.push(value)
            },
            old(self).constants@.len() >= MAX_CONSTANTS ==> {
                &&& r is None
                &&& final(self).constants@ == old(self).constants@
            },
    {
        if self.constants.len() < MAX_CONSTANTS {
            let index = self.constants.len() as u8;
            self.constants.push(value);
            Some(index)
        } else {
            None
        }
    }

    /// Appends a value to the constant pool and writes its index byte into
    /// the instruction stream; `None` when the pool is full.
    pub fn write_constant(&mut self, value: Value, line: usize) -> (r: Option<u8>)
        requires
            old(self).wf(),
        ensures
            final(self).wf(),
            old(self).constants@.len() < MAX_CONSTANTS ==> {
                &&& r == Some(old(self).constants@.len() as u8)
                &&& final(self).constants@ == old(self).constants@.push(value)
                &&& final(self).code@ == old(self).code@.push(old(self).constants@.len() as u8)
                &&& final(self).lines@ == old(self).lines@.push(line)
            },
            old(self).constants@.len() >= MAX_CONSTANTS ==> {
                &&& r is None
                &&& final(self).code@ == old(self).code@
                &&& final(self).lines@ == old(self).lines@
                &&& final(self).constants@ == old(self).constants@
            },
    {
        match self.add_constant(value) {
            Some(index) => {
                self.write(index, line);
                Some(index)
            },
            None => None,
        }
    }

    /// Replaces the constant at `index`, leaving everything else untouched.
    /// This is how the caller binds the parsed bit pattern of each numeral
    /// into the pool slot the compiler reserved for it.
    pub fn set_constant(&mut self, index: usize, value: Value)
        requires
            old(self).wf(),
            index < old(self).constants@.len(),
        ensures
            final(self).wf(),
            final(self).code@ == old(self).code@,
            final(self).lines@ == old(self).lines@,
            final(self).constants@ == old(self).constants@.update(index as int, value),
    {
        self.constants.set(index, value);
    }
}

} // verus!
