//! A program tree: the nested form of the operation sequence.
//!
//! The single-pass code generator never materializes this tree — loop
//! nesting is tracked with a stack of label pairs instead — but it is the
//! natural shape for callers that want to hold a whole program.

use vstd::prelude::*;

verus! {

/// A program fragment: leaf operations, or a loop over a body.
#[derive(Debug)]
pub enum Tree {
    /// Shift the tape position by the signed delta.
    Move(i64),
    /// Add the signed delta to the current cell.
    Add(i64),
    /// Read one byte into the current cell.
    ReadChar,
    /// Write the current cell to the output.
    WriteChar,
    /// A loop: run the body while the current cell is nonzero.
    Loop(Vec<Tree>),
    /// The end of the program.
    EndOfFile,
}

} // verus!
