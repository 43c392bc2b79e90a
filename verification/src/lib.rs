//! A minimal virtual machine for a tiny eight-command instruction set that
//! operates on a bounded tape of integer cells.
//!
//! The library is split into a builder, which turns raw source text into a
//! sequence of instructions whose branch targets are resolved at build time,
//! and an interpreter, which executes such a sequence against a fresh
//! machine state.  Reading program text from disk and streaming input and
//! output belong to the caller; the library works on plain values.

pub mod brackets;
pub mod builder;
pub mod decimal;
pub mod errors;
pub mod interp;
pub mod laws;
pub mod machine;
pub mod tokens;

pub use builder::BFI;
pub use errors::BuildError;
pub use errors::RunError;
pub use machine::Machine;
pub use tokens::BfToken;
pub use tokens::Program;
