//! A small bytecode virtual machine with a tiered address space, together
//! with the textual assembler that targets it.
//!
//! The two halves share one contract: the opcode table and the addressing
//! scheme live in `ops` and `mem`, the assembler (`ast`, `assembler`) turns
//! source text into a flat byte buffer, and the dispatch engine (`vm`)
//! executes that buffer through the address space.

pub mod assembler;
pub mod ast;
pub mod fault;
pub mod mem;
pub mod ops;
pub mod vm;
