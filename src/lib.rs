//! A small stack-based bytecode machine: chunks of code with their constant
//! pools, a stateless disassembler, and a virtual machine that executes a
//! chunk one instruction at a time.
pub mod value;
pub mod chunk;
pub mod disassembler;
pub mod vm;
pub mod expr;
