//! A minimal virtual machine for an esoteric, tape-based instruction set whose
//! opcodes are whitespace-delimited tokens of alternating marker and terminator
//! characters, the token's length selecting the opcode.
//!
//! The crate splits into a token decoder and program loader ([`decoder`]) and
//! the execution engine ([`machine`]); [`laws`] proves the laws the two obey.

pub mod decoder;
pub mod laws;
pub mod machine;

pub use decoder::CatInstruction;
pub use machine::{CatError, CatInterpreter};
