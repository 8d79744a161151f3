//! A small register-machine interpreter.
//!
//! The `program` module parses an assembly-like language of four
//! instructions (`cpy`, `inc`, `dec`, `jnz`) into a sequence of typed
//! instructions and executes it against a file of four signed 32-bit
//! registers until the instruction pointer leaves the program.

pub mod program;
