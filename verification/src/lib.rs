//! A small compiler that lowers a structured imperative language onto a
//! minimal tape machine: a single head over 8-bit cells with only move,
//! increment/decrement, read/write and repeat-while-nonzero instructions.
//!
//! The pipeline is: scanner (text to tokens), parser (tokens to a syntax
//! tree), generator (tree to a symbolic instruction text) and assembler
//! (symbolic instruction text to the final tape-machine program).

use vstd::prelude::*;

pub mod assembler;
pub mod compiler;
pub mod generator;
pub mod parser;
pub mod scanner;
mod text;

verus! {

/// The error kinds that any stage of the pipeline can report.
///
/// The pipeline is a one-shot transform: an error at any stage aborts the
/// compilation and is handed to the caller unchanged.
#[derive(Debug, Clone, Copy, PartialEq, Eq, Structural)]
pub enum CompileError {
    /// A word of the source text matches no token pattern.
    LexicalError,
    /// The token sequence matches no grammar production. Carries the index
    /// of the first token that could not be consumed: the offending span
    /// starts there.
    ParseError(usize),
    /// A user variable collides with one of the generator's internal names.
    ReservedName,
    /// An assembler line has the wrong arity or an operand that is neither
    /// a number nor a defined symbol.
    MalformedInstruction,
    /// An assembler line starts with an unrecognized mnemonic.
    UnknownOperation,
}

} // verus!
