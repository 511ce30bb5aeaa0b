//! The byte source feeding the token scan.
//!
//! A `Stream` holds the whole source in memory and hands its bytes out one
//! at a time, tracking the 1-based line and column of the next unconsumed
//! byte: a consumed line feed advances the line and resets the column, any
//! other byte advances the column.

use vstd::prelude::*;

use crate::scan::{NEWLINE, col_of, line_of, lemma_position_bounds};

verus! {

/// The longest source a stream accepts; keeps positions and folded deltas
/// far inside every fixed-width machine integer.
pub const MAX_STREAM_LEN: usize = 0x4000_0000;

/// A cursor over an in-memory byte sequence with position tracking.
pub struct Stream {
    /// 1-based line of the next unconsumed byte.
    pub line: usize,
    /// 1-based column of the next unconsumed byte.
    pub column: usize,
    /// The source bytes.
    pub bytes: Vec<u8>,
    /// How many bytes have been consumed.
    pub position: usize,
}

impl Stream {
    /// The source bytes.
    pub open spec fn src(&self) -> Seq<u8> {
        self.bytes@
    }

    /// How many bytes have been consumed.
    pub open spec fn pos(&self) -> int {
        self.position as int
    }

    /// The cursor is in bounds and the position counters agree with it.
    pub open spec fn wf(&self) -> bool {
        &&& self.pos() <= self.src().len() <= MAX_STREAM_LEN
        &&& self.line == line_of(self.src(), self.pos())
        &&& self.column == col_of(self.src(), self.pos())
    }

    /// A fresh stream over `read`, at line 1, column 1.
    pub fn new(read: Vec<u8>) -> (r: Self)
        requires
            read@.len() <= MAX_STREAM_LEN,
        ensures
            r.wf(),
            r.src() == read@,
            r.pos() == 0,
    {
        Self { line: 1, column: 1, bytes: read, position: 0 }
    }

    /// The next unconsumed byte, if any, without consuming it.
    pub fn peek(&self) -> (r: Option<u8>)
        requires
            self.wf(),
        ensures
            r == (if self.pos() < self.src().len() {
                Some(self.src()[self.pos()])
            } else {
                None::<u8>
            }),
    {
        if self.position < self.bytes.len() {
            Some(self.bytes[self.position])
        } else {
            None
        }
    }

    /// Consumes one byte, advancing the line on a line feed and the
    /// column otherwise.
    pub fn forward(&mut self)
        requires
            old(self).wf(),
            old(self).pos() < old(self).src().len(),
        ensures
            final(self).wf(),
            final(self).src() == old(self).src(),
            final(self).pos() == old(self).pos() + 1,
    {
        proof {
            lemma_position_bounds(self.src(), self.pos());
        }
        let b = self.bytes[self.position];
        if b == NEWLINE {
            self.line = self.line + 1;
            self.column = 1;
        } else {
            self.column = self.column + 1;
        }
        self.position = self.position + 1;
    }
}

} // verus!
