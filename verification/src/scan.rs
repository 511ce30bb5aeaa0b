//! Spec-level model of the operator scan.
//!
//! The token sources fold a maximal run of shift (`>`/`<`) or increment
//! (`+`/`-`) operators, with comment bytes interleaved, into a single
//! signed delta.  A run ends at the first operator of another class or at
//! the end of the input; a comment byte never ends a run.  These functions
//! say, for a byte sequence and a position, where the next operator is,
//! what a run's net delta is, where it stops, and on which 1-based line
//! and column a byte sits.

use vstd::prelude::*;

verus! {

/// `>`
pub const OP_SHIFT_RIGHT: u8 = 62;

/// `<`
pub const OP_SHIFT_LEFT: u8 = 60;

/// `+`
pub const OP_INCREMENT: u8 = 43;

/// `-`
pub const OP_DECREMENT: u8 = 45;

/// `.`
pub const OP_WRITE: u8 = 46;

/// `,`
pub const OP_READ: u8 = 44;

/// `[`
pub const OP_LOOP_START: u8 = 91;

/// `]`
pub const OP_LOOP_END: u8 = 93;

/// The line feed byte.
pub const NEWLINE: u8 = 10;


/// 1-based line of the byte at `i`: one more than the line feeds before it.
pub open spec fn line_of(s: Seq<u8>, i: int) -> int
    decreases i,
{
    if i <= 0 {
        1
    } else if s[i - 1] == NEWLINE {
        line_of(s, i - 1) + 1
    } else {
        line_of(s, i - 1)
    }
}

/// 1-based column of the byte at `i`: its distance to the last line feed.
pub open spec fn col_of(s: Seq<u8>, i: int) -> int
    decreases i,
{
    if i <= 0 {
        1
    } else if s[i - 1] == NEWLINE {
        1
    } else {
        col_of(s, i - 1) + 1
    }
}

/// Line and column are 1-based and never exceed the position itself.
pub proof fn lemma_position_bounds(s: Seq<u8>, i: int)
    requires
        0 <= i,
    ensures
        1 <= line_of(s, i) <= i + 1,
        1 <= col_of(s, i) <= i + 1,
    decreases i,
{
    if i > 0 {
        lemma_position_bounds(s, i - 1);
    }
}

/// An operator byte: one of `>` `<` `+` `-` `.` `,` `[` `]`.
pub open spec fn is_op(b: u8) -> bool {
    b == OP_SHIFT_RIGHT || b == OP_SHIFT_LEFT || b == OP_INCREMENT || b == OP_DECREMENT || b == OP_WRITE || b == OP_READ || b == OP_LOOP_START
        || b == OP_LOOP_END
}

/// Ends a shift run: any operator that is not a shift.
pub open spec fn is_move_break(b: u8) -> bool {
    is_op(b) && b != OP_SHIFT_RIGHT && b != OP_SHIFT_LEFT
}

/// Ends an increment run: any operator that is not an increment.
pub open spec fn is_add_break(b: u8) -> bool {
    is_op(b) && b != OP_INCREMENT && b != OP_DECREMENT
}

/// Index of the first operator byte at or after `i` (the length if none).
pub open spec fn next_op(s: Seq<u8>, i: int) -> int
    decreases s.len() - i,
{
    if i >= s.len() {
        s.len() as int
    } else if is_op(s[i]) {
        i
    } else {
        next_op(s, i + 1)
    }
}

/// Net shift of the run continuing at `i`: +1 per `>`, −1 per `<`,
/// skipping comment bytes, stopping at the first break operator.
pub open spec fn move_delta(s: Seq<u8>, i: int) -> int
    decreases s.len() - i,
{
    if i >= s.len() {
        0
    } else if s[i] == OP_SHIFT_RIGHT {
        1 + move_delta(s, i + 1)
    } else if s[i] == OP_SHIFT_LEFT {
        move_delta(s, i + 1) - 1
    } else if is_move_break(s[i]) {
        0
    } else {
        move_delta(s, i + 1)
    }
}

/// Where the shift run continuing at `i` stops: the index of the first
/// break operator, or the length.
pub open spec fn move_end(s: Seq<u8>, i: int) -> int
    decreases s.len() - i,
{
    if i >= s.len() {
        s.len() as int
    } else if is_move_break(s[i]) {
        i
    } else {
        move_end(s, i + 1)
    }
}

/// Net increment of the run continuing at `i`: +1 per `+`, −1 per `-`.
pub open spec fn add_delta(s: Seq<u8>, i: int) -> int
    decreases s.len() - i,
{
    if i >= s.len() {
        0
    } else if s[i] == OP_INCREMENT {
        1 + add_delta(s, i + 1)
    } else if s[i] == OP_DECREMENT {
        add_delta(s, i + 1) - 1
    } else if is_add_break(s[i]) {
        0
    } else {
        add_delta(s, i + 1)
    }
}

/// Where the increment run continuing at `i` stops.
pub open spec fn add_end(s: Seq<u8>, i: int) -> int
    decreases s.len() - i,
{
    if i >= s.len() {
        s.len() as int
    } else if is_add_break(s[i]) {
        i
    } else {
        add_end(s, i + 1)
    }
}

/// The next operator lies between `i` and the end, everything before it is
/// a comment byte, and it is an operator if it exists.
pub proof fn lemma_next_op(s: Seq<u8>, i: int)
    requires
        0 <= i <= s.len(),
    ensures
        i <= next_op(s, i) <= s.len(),
        next_op(s, i) < s.len() ==> is_op(s[next_op(s, i)]),
        forall|j: int| i <= j < next_op(s, i) ==> !is_op(s[j]),
    decreases s.len() - i,
{
    if i < s.len() && !is_op(s[i]) {
        lemma_next_op(s, i + 1);
    }
}

/// A run's end lies between `i` and the end of the input.
pub proof fn lemma_move_end(s: Seq<u8>, i: int)
    requires
        0 <= i <= s.len(),
    ensures
        i <= move_end(s, i) <= s.len(),
    decreases s.len() - i,
{
    if i < s.len() && !is_move_break(s[i]) {
        lemma_move_end(s, i + 1);
    }
}

/// A run's end lies between `i` and the end of the input.
pub proof fn lemma_add_end(s: Seq<u8>, i: int)
    requires
        0 <= i <= s.len(),
    ensures
        i <= add_end(s, i) <= s.len(),
    decreases s.len() - i,
{
    if i < s.len() && !is_add_break(s[i]) {
        lemma_add_end(s, i + 1);
    }
}

/// A shift run never contains a bracket, and its net delta is bounded by
/// its width.
pub proof fn lemma_move_run(s: Seq<u8>, i: int)
    requires
        0 <= i <= s.len(),
    ensures
        -(move_end(s, i) - i) <= move_delta(s, i) <= move_end(s, i) - i,
        forall|j: int| i <= j < move_end(s, i) ==> s[j] != OP_LOOP_START && s[j] != OP_LOOP_END,
    decreases s.len() - i,
{
    lemma_move_end(s, i);
    if i < s.len() && !is_move_break(s[i]) {
        lemma_move_run(s, i + 1);
    }
}

/// An increment run never contains a bracket, and its net delta is bounded
/// by its width.
pub proof fn lemma_add_run(s: Seq<u8>, i: int)
    requires
        0 <= i <= s.len(),
    ensures
        -(add_end(s, i) - i) <= add_delta(s, i) <= add_end(s, i) - i,
        forall|j: int| i <= j < add_end(s, i) ==> s[j] != OP_LOOP_START && s[j] != OP_LOOP_END,
    decreases s.len() - i,
{
    lemma_add_end(s, i);
    if i < s.len() && !is_add_break(s[i]) {
        lemma_add_run(s, i + 1);
    }
}

} // verus!
