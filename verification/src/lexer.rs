//! A standalone token source: a self-contained alternative to the
//! [`crate::stream::Stream`]-plus-[`crate::parser::parse`] pair.
//!
//! The lexer owns its cursor: every consumed line feed advances the
//! 1-based line and resets the column.  It folds operator runs exactly as
//! [`crate::parser::parse`] does and yields [`Instruction`]s.

use vstd::prelude::*;

use crate::instruction::Instruction;
use crate::scan::{NEWLINE, col_of, line_of, lemma_position_bounds, OP_SHIFT_RIGHT, OP_SHIFT_LEFT, OP_INCREMENT, OP_DECREMENT, OP_WRITE, OP_READ,
    OP_LOOP_START, OP_LOOP_END, is_op, is_move_break, is_add_break, next_op, move_delta, move_end,
    add_delta, add_end, lemma_next_op};
use crate::stream::MAX_STREAM_LEN;

verus! {

/// The instruction whose first byte is the operator at `j`.
pub open spec fn instruction_at(s: Seq<u8>, j: int) -> Instruction {
    if s[j] == OP_SHIFT_RIGHT || s[j] == OP_SHIFT_LEFT {
        Instruction::Move(move_delta(s, j) as isize)
    } else if s[j] == OP_INCREMENT || s[j] == OP_DECREMENT {
        Instruction::Add(add_delta(s, j) as isize)
    } else if s[j] == OP_WRITE {
        Instruction::WriteChar
    } else if s[j] == OP_READ {
        Instruction::ReadChar
    } else if s[j] == OP_LOOP_START {
        Instruction::LoopStart
    } else if s[j] == OP_LOOP_END {
        Instruction::LoopEnd
    } else {
        Instruction::ProgramEnd
    }
}

/// Where the instruction whose first byte is the operator at `j` stops.
pub open spec fn instruction_end(s: Seq<u8>, j: int) -> int {
    if s[j] == OP_SHIFT_RIGHT || s[j] == OP_SHIFT_LEFT {
        move_end(s, j + 1)
    } else if s[j] == OP_INCREMENT || s[j] == OP_DECREMENT {
        add_end(s, j + 1)
    } else {
        j + 1
    }
}

/// A cursor over an in-memory byte sequence, counting lines and columns.
pub struct Lexer {
    /// 1-based line of the next unconsumed byte.
    pub line: usize,
    /// 1-based column of the next unconsumed byte.
    pub column: usize,
    /// The source bytes.
    pub bytes: Vec<u8>,
    /// How many bytes have been consumed.
    pub position: usize,
}

impl Lexer {
    /// The source bytes.
    pub open spec fn src(&self) -> Seq<u8> {
        self.bytes@
    }

    /// How many bytes have been consumed.
    pub open spec fn pos(&self) -> int {
        self.position as int
    }

    /// The cursor is in bounds and the position counters agree with it.
    pub open spec fn wf(&self) -> bool {
        &&& self.pos() <= self.src().len() <= MAX_STREAM_LEN
        &&& self.line == line_of(self.src(), self.pos())
        &&& self.column == col_of(self.src(), self.pos())
    }

    /// A fresh lexer over `stream`, at line 1, column 1.
    pub fn new(stream: Vec<u8>) -> (r: Self)
        requires
            stream@.len() <= MAX_STREAM_LEN,
        ensures
            r.wf(),
            r.src() == stream@,
            r.pos() == 0,
    {
        Self { line: 1, column: 1, bytes: stream, position: 0 }
    }

    /// The next unconsumed byte, if any, without consuming it.
    fn peek(&self) -> (r: Option<u8>)
        requires
            self.wf(),
        ensures
            r == (if self.pos() < self.src().len() {
                Some(self.src()[self.pos()])
            } else {
                None::<u8>
            }),
    {
        if self.position < self.bytes.len() {
            Some(self.bytes[self.position])
        } else {
            None
        }
    }

    /// Consumes one byte, advancing the line on a line feed and the column
    /// otherwise.
    fn forward(&mut self)
        requires
            old(self).wf(),
            old(self).pos() < old(self).src().len(),
        ensures
            final(self).wf(),
            final(self).src() == old(self).src(),
            final(self).pos() == old(self).pos() + 1,
    {
        proof {
            lemma_position_bounds(self.src(), self.pos());
        }
        let b = self.bytes[self.position];
        if b == NEWLINE {
            self.line = self.line + 1;
            self.column = 1;
        } else {
            self.column = self.column + 1;
        }
        self.position = self.position + 1;
    }

    /// Returns the next instruction and the 1-based line and column of its
    /// first byte; at the end of the source, the program-end marker and
    /// the cursor's resting position.
    pub fn lex(&mut self) -> (r: (Instruction, usize, usize))
        requires
            old(self).wf(),
        ensures
            final(self).wf(),
            final(self).src() == old(self).src(),
            ({
                let s = old(self).src();
                let j = next_op(s, old(self).pos());
                if j == s.len() {
                    &&& r.0 == Instruction::ProgramEnd
                    &&& r.1 == line_of(s, s.len() as int)
                    &&& r.2 == col_of(s, s.len() as int)
                    &&& final(self).pos() == s.len()
                } else {
                    &&& r.0 == instruction_at(s, j)
                    &&& r.1 == line_of(s, j)
                    &&& r.2 == col_of(s, j)
                    &&& final(self).pos() == instruction_end(s, j)
                }
            }),
    {
        let ghost s = self.src();
        let ghost p0 = self.pos();
        proof {
            lemma_next_op(s, p0);
        }
        // Skip comment bytes up to the next operator.
        loop
            invariant
                s == old(self).src(),
                p0 == old(self).pos(),
                self.wf(),
                self.src() == s,
                p0 <= self.pos() <= s.len(),
                next_op(s, p0) == next_op(s, self.pos()),
            ensures
                s == old(self).src(),
                p0 == old(self).pos(),
                self.wf(),
                self.src() == s,
                self.pos() == next_op(s, p0),
                self.pos() < s.len(),
            decreases s.len() - self.pos(),
        {
            match self.peek() {
                Some(byte) => {
                    if byte == OP_SHIFT_RIGHT || byte == OP_SHIFT_LEFT || byte == OP_INCREMENT
                        || byte == OP_DECREMENT || byte == OP_WRITE || byte == OP_READ || byte
                        == OP_LOOP_START || byte == OP_LOOP_END {
                        proof {
                            assert(is_op(byte));
                            assert(next_op(s, self.pos()) == self.pos());
                        }
                        break;
                    }
                    proof {
                        assert(!is_op(byte));
                    }
                    self.forward();
                },
                None => {
                    return (Instruction::ProgramEnd, self.line, self.column);
                },
            }
        }
        let ghost j = self.pos();
        let line = self.line;
        let column = self.column;
        let byte = match self.peek() {
            Some(b) => b,
            None => {
                proof {
                    assert(false);
                }
                0
            },
        };
        self.forward();
        if byte == OP_SHIFT_RIGHT || byte == OP_SHIFT_LEFT {
            let ghost init: int = if byte == OP_SHIFT_RIGHT {
                1int
            } else {
                -1int
            };
            let mut delta: isize = if byte == OP_SHIFT_RIGHT {
                1
            } else {
                -1
            };
            loop
                invariant
                    s == old(self).src(),
                    -1 <= init <= 1,
                    self.wf(),
                    self.src() == s,
                    0 <= j + 1 <= self.pos() <= s.len(),
                    init - (self.pos() - (j + 1)) <= delta <= init + (self.pos() - (j + 1)),
                    delta + move_delta(s, self.pos()) == init + move_delta(s, j + 1),
                    move_end(s, self.pos()) == move_end(s, j + 1),
                ensures
                    self.wf(),
                    self.src() == s,
                    self.pos() == move_end(s, j + 1),
                    delta == init + move_delta(s, j + 1),
                decreases s.len() - self.pos(),
            {
                match self.peek() {
                    Some(b) => {
                        if b == OP_SHIFT_RIGHT {
                            delta = delta + 1;
                        } else if b == OP_SHIFT_LEFT {
                            delta = delta - 1;
                        } else if b == OP_INCREMENT || b == OP_DECREMENT || b == OP_LOOP_START
                            || b == OP_LOOP_END || b == OP_WRITE || b == OP_READ {
                            proof {
                                assert(is_move_break(b));
                                assert(move_end(s, self.pos()) == self.pos());
                                assert(move_delta(s, self.pos()) == 0);
                            }
                            break;
                        }
                        self.forward();
                    },
                    None => {
                        break;
                    },
                }
            }
            (Instruction::Move(delta), line, column)
        } else if byte == OP_INCREMENT || byte == OP_DECREMENT {
            let ghost init: int = if byte == OP_INCREMENT {
                1int
            } else {
                -1int
            };
            let mut increment: isize = if byte == OP_INCREMENT {
                1
            } else {
                -1
            };
            loop
                invariant
                    s == old(self).src(),
                    -1 <= init <= 1,
                    self.wf(),
                    self.src() == s,
                    0 <= j + 1 <= self.pos() <= s.len(),
                    init - (self.pos() - (j + 1)) <= increment <= init + (self.pos() - (j + 1)),
                    increment + add_delta(s, self.pos()) == init + add_delta(s, j + 1),
                    add_end(s, self.pos()) == add_end(s, j + 1),
                ensures
                    self.wf(),
                    self.src() == s,
                    self.pos() == add_end(s, j + 1),
                    increment == init + add_delta(s, j + 1),
                decreases s.len() - self.pos(),
            {
                match self.peek() {
                    Some(b) => {
                        if b == OP_INCREMENT {
                            increment = increment + 1;
                        } else if b == OP_DECREMENT {
                            increment = increment - 1;
                        } else if b == OP_SHIFT_RIGHT || b == OP_SHIFT_LEFT || b == OP_LOOP_START
                            || b == OP_LOOP_END || b == OP_WRITE || b == OP_READ {
                            proof {
                                assert(is_add_break(b));
                                assert(add_end(s, self.pos()) == self.pos());
                                assert(add_delta(s, self.pos()) == 0);
                            }
                            break;
                        }
                        self.forward();
                    },
                    None => {
                        break;
                    },
                }
            }
            (Instruction::Add(increment), line, column)
        } else if byte == OP_WRITE {
            (Instruction::WriteChar, line, column)
        } else if byte == OP_READ {
            (Instruction::ReadChar, line, column)
        } else if byte == OP_LOOP_START {
            (Instruction::LoopStart, line, column)
        } else {
            proof {
                assert(byte == OP_LOOP_END);
            }
            (Instruction::LoopEnd, line, column)
        }
    }
}

} // verus!
