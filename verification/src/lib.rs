//! A verified interpreter for a tiny eight-symbol instruction language.
//!
//! Source text is filtered down to the eight recognized symbols, the
//! bracket-like jump instructions are validated with a stack discipline,
//! and the resulting instruction sequence is executed against a fixed-size
//! tape of signed bytes with a single movable cursor.

pub mod interp;
pub mod jumps;
pub mod lexer;
pub mod machine;

pub use interp::Interpreter;
pub use interp::Outcome;
pub use interp::RunResult;
pub use interp::StepEvent;
pub use jumps::JumpPosition;
pub use lexer::lex;
pub use lexer::Op;

use vstd::prelude::*;

verus! {

/// Number of cells on the tape of a freshly created interpreter.
pub const DATA_SIZE: usize = 30000;

} // verus!
