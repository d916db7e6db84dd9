//! A 24-bit, word-addressed stack machine and its assembler.
//!
//! The machine executes ROM images made of 24-bit words: a fixed 64-word
//! header followed by code. Programs are collections of typed functions
//! (declared argument/return arities) that never return to a caller;
//! instead each function terminates by naming 0, 1 or 2 successor
//! functions, which an outer scheduler runs next over a shared value
//! stack. The assembler translates a textual form into such a ROM with
//! two-pass label resolution.

pub mod alu;
pub mod assembler;
pub mod codec;
pub mod errors;
pub mod func_execute;
pub mod grammar;
pub mod laws;
pub mod memory;
pub mod parser;
pub mod vm;
