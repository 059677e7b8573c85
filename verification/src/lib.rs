//! A minimal two-stage pipeline for evaluating a single arithmetic
//! expression: a scanner turns source bytes into tokens, a precedence-climbing
//! compiler emits bytecode into a [`chunk::Chunk`], and a stack-based virtual
//! machine executes the chunk.
//!
//! The machine never interprets the numeric payload of a [`value::Value`]:
//! a number is carried as the 64-bit pattern of an IEEE-754 double. The
//! caller parses numeral lexemes into bit patterns and binds them into the
//! constant pool, and performs the arithmetic the machine requests through
//! [`vm::RunOutcome::NeedBinary`]. Everything the pipeline decides —
//! tokenisation, precedence, bytecode layout, instruction decoding and stack
//! discipline — is specified and verified here.

pub mod chunk;
pub mod compiler;
pub mod scanner;
pub mod value;
pub mod vm;
