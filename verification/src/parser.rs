//! The token source: folds source bytes into typed operations.
//!
//! Each call to [`parse`] returns the next token together with the line and
//! column of its first byte.  Consecutive shift operators (`>`/`<`) fold
//! into one [`Token::Move`] and consecutive increments (`+`/`-`) into one
//! [`Token::Add`]; every byte that is not an operator is a comment and is
//! skipped, even inside a run.

use vstd::prelude::*;

use crate::scan::{col_of, line_of, OP_SHIFT_RIGHT, OP_SHIFT_LEFT, OP_INCREMENT, OP_DECREMENT, OP_WRITE, OP_READ,
    OP_LOOP_START, OP_LOOP_END, is_op, is_move_break, is_add_break, next_op, move_delta, move_end,
    add_delta, add_end, lemma_next_op, lemma_move_run, lemma_add_run};
use crate::stream::Stream;

verus! {

/// One folded operation, as the code generator consumes it.
#[derive(PartialEq, Eq, Structural, Clone, Copy, Debug)]
pub enum Token {
    /// Shift the tape position by the signed delta.
    Move(i64),
    /// Add the signed delta to the current cell.
    Add(i64),
    /// Read one byte into the current cell.
    ReadChar,
    /// Write the current cell to the output.
    WriteChar,
    /// `[`: enter a loop.
    LoopStart,
    /// `]`: leave a loop.
    LoopEnd,
    /// The source is exhausted.
    EndOfFile,
}

/// The token whose first byte is the operator at `j`.
pub open spec fn token_at(s: Seq<u8>, j: int) -> Token {
    if s[j] == OP_SHIFT_RIGHT || s[j] == OP_SHIFT_LEFT {
        Token::Move(move_delta(s, j) as i64)
    } else if s[j] == OP_INCREMENT || s[j] == OP_DECREMENT {
        Token::Add(add_delta(s, j) as i64)
    } else if s[j] == OP_WRITE {
        Token::WriteChar
    } else if s[j] == OP_READ {
        Token::ReadChar
    } else if s[j] == OP_LOOP_START {
        Token::LoopStart
    } else if s[j] == OP_LOOP_END {
        Token::LoopEnd
    } else {
        Token::EndOfFile
    }
}

/// Where the token whose first byte is the operator at `j` stops.
pub open spec fn token_end(s: Seq<u8>, j: int) -> int {
    if s[j] == OP_SHIFT_RIGHT || s[j] == OP_SHIFT_LEFT {
        move_end(s, j + 1)
    } else if s[j] == OP_INCREMENT || s[j] == OP_DECREMENT {
        add_end(s, j + 1)
    } else {
        j + 1
    }
}

/// Returns the next token and the 1-based line and column of its first
/// byte; at the end of the source, the end-of-file token and the cursor's
/// resting position.
pub fn parse(stream: &mut Stream) -> (r: (Token, usize, usize))
    requires
        old(stream).wf(),
    ensures
        final(stream).wf(),
        final(stream).src() == old(stream).src(),
        ({
            let s = old(stream).src();
            let j = next_op(s, old(stream).pos());
            if j == s.len() {
                &&& r.0 == Token::EndOfFile
                &&& r.1 == line_of(s, s.len() as int)
                &&& r.2 == col_of(s, s.len() as int)
                &&& final(stream).pos() == s.len()
            } else {
                &&& r.0 == token_at(s, j)
                &&& r.1 == line_of(s, j)
                &&& r.2 == col_of(s, j)
                &&& final(stream).pos() == token_end(s, j)
            }
        }),
{
    let ghost s = stream.src();
    let ghost p0 = stream.pos();
    proof {
        lemma_next_op(s, p0);
    }
    loop
        invariant
            s == old(stream).src(),
            p0 == old(stream).pos(),
            stream.wf(),
            stream.src() == s,
            p0 <= stream.pos() <= s.len(),
            next_op(s, p0) == next_op(s, stream.pos()),
        decreases s.len() - stream.pos(),
    {
        match stream.peek() {
            Some(byte) => {
                let line = stream.line;
                let column = stream.column;
                proof {
                    if is_op(byte) {
                        assert(next_op(s, stream.pos()) == stream.pos());
                    }
                }
                stream.forward();
                match byte {
                    OP_SHIFT_RIGHT | OP_SHIFT_LEFT => {
                        let token = parse_move(stream, byte);
                        return (token, line, column);
                    },
                    OP_INCREMENT | OP_DECREMENT => {
                        let token = parse_increment(stream, byte);
                        return (token, line, column);
                    },
                    OP_LOOP_START => {
                        return (Token::LoopStart, line, column);
                    },
                    OP_LOOP_END => {
                        return (Token::LoopEnd, line, column);
                    },
                    OP_WRITE => {
                        return (Token::WriteChar, line, column);
                    },
                    OP_READ => {
                        return (Token::ReadChar, line, column);
                    },
                    _ => {
                        proof {
                            assert(!is_op(byte));
                        }
                    },
                }
            },
            None => {
                return (Token::EndOfFile, stream.line, stream.column);
            },
        }
    }
}

/// Folds the shift run whose first operator, already consumed, was `byte`.
fn parse_move(stream: &mut Stream, byte: u8) -> (r: Token)
    requires
        old(stream).wf(),
        byte == OP_SHIFT_RIGHT || byte == OP_SHIFT_LEFT,
    ensures
        final(stream).wf(),
        final(stream).src() == old(stream).src(),
        final(stream).pos() == move_end(old(stream).src(), old(stream).pos()),
        r == Token::Move(
            ((if byte == OP_SHIFT_RIGHT {
                1int
            } else {
                -1int
            }) + move_delta(old(stream).src(), old(stream).pos())) as i64,
        ),
{
    let ghost s = stream.src();
    let ghost p0 = stream.pos();
    let ghost init: int = if byte == OP_SHIFT_RIGHT {
        1int
    } else {
        -1int
    };
    let mut shift: i64 = if byte == OP_SHIFT_RIGHT {
        1
    } else {
        -1
    };
    loop
        invariant
            s == old(stream).src(),
            p0 == old(stream).pos(),
            -1 <= init <= 1,
            stream.wf(),
            stream.src() == s,
            p0 <= stream.pos() <= s.len(),
            init - (stream.pos() - p0) <= shift <= init + (stream.pos() - p0),
            shift + move_delta(s, stream.pos()) == init + move_delta(s, p0),
            move_end(s, stream.pos()) == move_end(s, p0),
        ensures
            stream.wf(),
            stream.src() == s,
            stream.pos() == move_end(s, p0),
            shift == init + move_delta(s, p0),
        decreases s.len() - stream.pos(),
    {
        match stream.peek() {
            Some(b) => {
                if b == OP_SHIFT_RIGHT {
                    shift = shift + 1;
                } else if b == OP_SHIFT_LEFT {
                    shift = shift - 1;
                } else if b == OP_INCREMENT || b == OP_DECREMENT || b == OP_LOOP_START || b
                    == OP_LOOP_END || b == OP_WRITE || b == OP_READ {
                    proof {
                        assert(is_move_break(b));
                        assert(move_end(s, stream.pos()) == stream.pos());
                        assert(move_delta(s, stream.pos()) == 0);
                    }
                    break;
                }
                stream.forward();
            },
            None => {
                break;
            },
        }
    }
    Token::Move(shift)
}

/// Folds the increment run whose first operator, already consumed, was
/// `byte`.
fn parse_increment(stream: &mut Stream, byte: u8) -> (r: Token)
    requires
        old(stream).wf(),
        byte == OP_INCREMENT || byte == OP_DECREMENT,
    ensures
        final(stream).wf(),
        final(stream).src() == old(stream).src(),
        final(stream).pos() == add_end(old(stream).src(), old(stream).pos()),
        r == Token::Add(
            ((if byte == OP_INCREMENT {
                1int
            } else {
                -1int
            }) + add_delta(old(stream).src(), old(stream).pos())) as i64,
        ),
{
    let ghost s = stream.src();
    let ghost p0 = stream.pos();
    let ghost init: int = if byte == OP_INCREMENT {
        1int
    } else {
        -1int
    };
    let mut value: i64 = if byte == OP_INCREMENT {
        1
    } else {
        -1
    };
    loop
        invariant
            s == old(stream).src(),
            p0 == old(stream).pos(),
            -1 <= init <= 1,
            stream.wf(),
            stream.src() == s,
            p0 <= stream.pos() <= s.len(),
            init - (stream.pos() - p0) <= value <= init + (stream.pos() - p0),
            value + add_delta(s, stream.pos()) == init + add_delta(s, p0),
            add_end(s, stream.pos()) == add_end(s, p0),
        ensures
            stream.wf(),
            stream.src() == s,
            stream.pos() == add_end(s, p0),
            value == init + add_delta(s, p0),
        decreases s.len() - stream.pos(),
    {
        match stream.peek() {
            Some(b) => {
                if b == OP_INCREMENT {
                    value = value + 1;
                } else if b == OP_DECREMENT {
                    value = value - 1;
                } else if b == OP_SHIFT_RIGHT || b == OP_SHIFT_LEFT || b == OP_LOOP_START || b
                    == OP_LOOP_END || b == OP_WRITE || b == OP_READ {
                    proof {
                        assert(is_add_break(b));
                        assert(add_end(s, stream.pos()) == stream.pos());
                        assert(add_delta(s, stream.pos()) == 0);
                    }
                    break;
                }
                stream.forward();
            },
            None => {
                break;
            },
        }
    }
    Token::Add(value)
}

/// A structural fault in the source, at a 1-based line and column.
#[derive(Debug)]
pub struct SyntaxError {
    /// Line of the offending operator.
    pub line: usize,
    /// Column of the offending operator.
    pub column: usize,
    /// What was wrong.
    pub message: &'static str,
}

impl SyntaxError {
    /// An error at the given position.
    pub fn new(line: usize, column: usize, message: &'static str) -> (r: Self)
        ensures
            r.line == line,
            r.column == column,
            r.message == message,
    {
        Self { line, column, message }
    }
}

/// Why compilation was abandoned.
#[derive(Debug)]
pub enum ParseError {
    /// The source's loop structure is unbalanced.
    Syntax(SyntaxError),
}

} // verus!
