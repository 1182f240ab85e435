//! A verified interpreter for a small line-oriented assembly language over
//! four integer registers.
//!
//! The crate is split into a parser, which turns source lines into typed
//! commands, and an executor, which runs a command sequence under a program
//! counter with conditional and unconditional jumps.

pub mod executor;
pub mod parser;
pub mod text;
