//! The operation alphabet, tagged with machine-word deltas.

use vstd::prelude::*;

verus! {

/// One folded operation, as produced by [`crate::lexer::Lexer`].
#[derive(PartialEq, Eq, Structural, Clone, Copy, Debug)]
pub enum Instruction {
    /// Shift the tape position by the signed delta.
    Move(isize),
    /// Add the signed delta to the current cell.
    Add(isize),
    /// Read one byte into the current cell.
    ReadChar,
    /// Write the current cell to the output.
    WriteChar,
    /// `[`: enter a loop.
    LoopStart,
    /// `]`: leave a loop.
    LoopEnd,
    /// The source is exhausted.
    ProgramEnd,
}

} // verus!
