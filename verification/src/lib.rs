//! A small bytecode virtual machine: a compact instruction encoding with a
//! constant pool and source-line table (`Chunk`), a stack-based interpreter
//! (`VM`) with checked dispatch, a disassembler for the instruction stream,
//! and a lexical scanner that turns source text into tokens.

use vstd::prelude::*;

pub mod chunk;
pub mod scanner;
pub mod text;
pub mod token;
pub mod value;
pub mod vm;

verus! {

/// Upper bound on the operand stack depth of the virtual machine.
pub const STACK_MAX: usize = 256;

} // verus!
