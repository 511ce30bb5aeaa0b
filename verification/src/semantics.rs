//! The run-time meaning of the generated code, as mathematics.
//!
//! The code generator never interprets a program, but each shape of code it
//! emits has a documented effect on the target machine: a shift run moves
//! the tape position with wraparound, an increment run changes the current
//! cell modulo 256, and a write fills the output buffer and flushes it on a
//! newline or when full.  The functions here state those effects over plain
//! integers; the lemmas in this module hold the code generator's reduction
//! policy to them.

use vstd::prelude::*;

use crate::parser::{Token, token_at};
use crate::scan::{NEWLINE, OP_SHIFT_RIGHT, OP_SHIFT_LEFT, OP_INCREMENT, OP_DECREMENT, is_move_break,
    move_delta};

verus! {

/// The remainder with the dividend's sign, as machine division computes
/// it: the generator reduces a folded shift delta this way before
/// encoding it.
pub open spec fn rem_signed(a: int, m: int) -> int {
    if a >= 0 {
        a % m
    } else {
        -((-a) % m)
    }
}

/// What the emitted tape-shift code does to a tape position, for a
/// reduced delta `w` in `(-len, len)`: one signed add, then a single
/// conditional correction — subtract `len` after running off the right
/// end, add `len` back after running off the left end.
pub open spec fn shift_target(pos: int, w: int, len: int) -> int {
    if w > 0 {
        if pos + w >= len {
            pos + w - len
        } else {
            pos + w
        }
    } else {
        if pos + w < 0 {
            pos + w + len
        } else {
            pos + w
        }
    }
}

/// What the emitted cell-arithmetic code does to a cell, for a reduced
/// increment `v` in `[0, 256)`: a wrapping 8-bit add.
pub open spec fn cell_target(cell: int, v: int) -> int {
    (cell + v) % 256
}

/// The output buffer's run-time state: how many bytes it holds, and how
/// many flush sequences have run.
pub struct OutBufferModel {
    /// Bytes buffered and not yet written.
    pub cursor: int,
    /// Flush sequences triggered so far.
    pub flushes: int,
}

/// What the emitted write code does to the output buffer: the byte goes
/// into the buffer, and a flush is triggered if the byte is a newline or
/// the buffer is now full.
pub open spec fn write_step(st: OutBufferModel, byte: u8, size: int) -> OutBufferModel {
    let filled = OutBufferModel { cursor: st.cursor + 1, flushes: st.flushes };
    if byte == NEWLINE || filled.cursor == size {
        OutBufferModel { cursor: 0, flushes: filled.flushes + 1 }
    } else {
        filled
    }
}

/// The buffer state after writing a whole byte sequence.
pub open spec fn write_all(st: OutBufferModel, bytes: Seq<u8>, size: int) -> OutBufferModel
    decreases bytes.len(),
{
    if bytes.len() == 0 {
        st
    } else {
        write_all(write_step(st, bytes[0], size), bytes.drop_first(), size)
    }
}

/// The output buffer as the produced program starts: empty, never flushed.
pub open spec fn empty_buffer() -> OutBufferModel {
    OutBufferModel { cursor: 0, flushes: 0 }
}

/// The generator's shift policy is sound: reducing any folded delta with
/// the dividend's sign and then running the emitted add-and-correct
/// sequence lands exactly on the position `delta` away, modulo the tape
/// length.
pub proof fn lemma_shift_reduction(pos: int, delta: int, len: int)
    requires
        0 < len,
        0 <= pos < len,
    ensures
        -len < rem_signed(delta, len) < len,
        shift_target(pos, rem_signed(delta, len), len) == (pos + delta) % len,
{
    let w = rem_signed(delta, len);
    if delta >= 0 {
        vstd::arithmetic::div_mod::lemma_fundamental_div_mod(delta, len);
        vstd::arithmetic::div_mod::lemma_mod_bound(delta, len);
        let q = delta / len;
        assert(pos + delta == len * q + (pos + w));
        vstd::arithmetic::div_mod::lemma_mod_multiples_vanish(q, pos + w, len);
        if pos + w >= len {
            assert(pos + w == len * 1 + (pos + w - len));
            vstd::arithmetic::div_mod::lemma_mod_multiples_vanish(1, pos + w - len, len);
            vstd::arithmetic::div_mod::lemma_small_mod((pos + w - len) as nat, len as nat);
        } else {
            vstd::arithmetic::div_mod::lemma_small_mod((pos + w) as nat, len as nat);
        }
    } else {
        vstd::arithmetic::div_mod::lemma_fundamental_div_mod(-delta, len);
        vstd::arithmetic::div_mod::lemma_mod_bound(-delta, len);
        let q = (-delta) / len;
        let r = (-delta) % len;
        assert(w == -r);
        assert(pos + delta == len * (-q) + (pos + w)) by (nonlinear_arith)
            requires
                -delta == len * q + r,
                w == -r,
        {}
        vstd::arithmetic::div_mod::lemma_mod_multiples_vanish(-q, pos + w, len);
        if pos + w < 0 {
            assert(pos + w == len * (-1) + (pos + w + len));
            vstd::arithmetic::div_mod::lemma_mod_multiples_vanish(-1, pos + w + len, len);
            vstd::arithmetic::div_mod::lemma_small_mod((pos + w + len) as nat, len as nat);
        } else {
            vstd::arithmetic::div_mod::lemma_small_mod((pos + w) as nat, len as nat);
        }
    }
}

/// Tape wraparound: shifting by exactly the tape length is a no-op;
/// shifting by −1 from position 0 lands on the last cell; shifting by +1
/// from the last cell lands on position 0.
pub proof fn lemma_tape_wraparound(pos: int, len: int)
    requires
        0 < len,
        0 <= pos < len,
    ensures
        rem_signed(len, len) == 0 && shift_target(pos, rem_signed(len, len), len) == pos,
        shift_target(0, rem_signed(-1, len), len) == len - 1,
        shift_target(len - 1, rem_signed(1, len), len) == 0,
{
    lemma_shift_reduction(pos, len, len);
    assert(len == len * 1 + 0);
    vstd::arithmetic::div_mod::lemma_mod_multiples_vanish(1, 0, len);
    vstd::arithmetic::div_mod::lemma_small_mod(0, len as nat);
    vstd::arithmetic::div_mod::lemma_small_mod(pos as nat, len as nat);
    lemma_shift_reduction(0, -1, len);
    assert(-1 == len * (-1) + (len - 1));
    vstd::arithmetic::div_mod::lemma_mod_multiples_vanish(-1, len - 1, len);
    vstd::arithmetic::div_mod::lemma_small_mod((len - 1) as nat, len as nat);
    lemma_shift_reduction(len - 1, 1, len);
    assert(len - 1 + 1 == len * 1 + 0);
    vstd::arithmetic::div_mod::lemma_mod_multiples_vanish(1, 0, len);
}

/// The generator's cell policy is sound: reducing any folded increment
/// modulo 256 and then running the emitted wrapping 8-bit add changes the
/// cell exactly by the increment, modulo 256.
pub proof fn lemma_cell_reduction(cell: int, v: int)
    requires
        0 <= cell < 256,
    ensures
        0 <= v % 256 < 256,
        cell_target(cell, v % 256) == (cell + v) % 256,
{
    vstd::arithmetic::div_mod::lemma_fundamental_div_mod(v, 256);
    vstd::arithmetic::div_mod::lemma_mod_bound(v, 256);
    let q = v / 256;
    assert(cell + v == 256 * q + (cell + v % 256));
    vstd::arithmetic::div_mod::lemma_mod_multiples_vanish(q, cell + v % 256, 256);
}

/// Cell wraparound: an increment run of +256 reduces to a no-op on the
/// cell, and a decrement from cell value 0 yields 255.
pub proof fn lemma_cell_wraparound(cell: int)
    requires
        0 <= cell < 256,
    ensures
        256int % 256 == 0 && cell_target(cell, 256int % 256) == cell,
        (-1int) % 256 == 255 && cell_target(0, (-1int) % 256) == 255,
{
    lemma_cell_reduction(cell, 256);
    assert(256int == 256 * 1 + 0);
    vstd::arithmetic::div_mod::lemma_mod_multiples_vanish(1, 0, 256);
    vstd::arithmetic::div_mod::lemma_small_mod(0, 256);
    vstd::arithmetic::div_mod::lemma_small_mod(cell as nat, 256);
    lemma_cell_reduction(0, -1);
    assert(-1int == 256 * (-1) + 255);
    vstd::arithmetic::div_mod::lemma_mod_multiples_vanish(-1, 255, 256);
    vstd::arithmetic::div_mod::lemma_small_mod(255, 256);
}

/// Writing a byte sequence one byte at a time, from the back.
pub proof fn lemma_write_all_snoc(st: OutBufferModel, bytes: Seq<u8>, size: int)
    requires
        bytes.len() >= 1,
    ensures
        write_all(st, bytes, size) == write_step(
            write_all(st, bytes.drop_last(), size),
            bytes.last(),
            size,
        ),
    decreases bytes.len(),
{
    if bytes.len() == 1 {
        assert(bytes.drop_last() =~= Seq::<u8>::empty());
        assert(bytes.drop_first() =~= Seq::<u8>::empty());
        assert(write_all(st, bytes, size) == write_all(
            write_step(st, bytes[0], size),
            bytes.drop_first(),
            size,
        ));
        assert(write_all(st, bytes.drop_last(), size) == st);
        assert(bytes.last() == bytes[0]);
    } else {
        let tail = bytes.drop_first();
        assert(write_all(st, bytes, size) == write_all(
            write_step(st, bytes[0], size),
            tail,
            size,
        ));
        lemma_write_all_snoc(write_step(st, bytes[0], size), tail, size);
        assert(tail.drop_last() =~= bytes.drop_last().drop_first());
        assert(tail.last() == bytes.last());
        assert(bytes.drop_last()[0] == bytes[0]);
        assert(write_all(st, bytes.drop_last(), size) == write_all(
            write_step(st, bytes[0], size),
            bytes.drop_last().drop_first(),
            size,
        ));
    }
}

/// Non-newline bytes that fit below the buffer size never flush.
pub proof fn lemma_write_all_quiet(st: OutBufferModel, bytes: Seq<u8>, size: int)
    requires
        0 <= st.cursor,
        st.cursor + bytes.len() < size,
        forall|i: int| 0 <= i < bytes.len() ==> bytes[i] != NEWLINE,
    ensures
        write_all(st, bytes, size) == (OutBufferModel {
            cursor: st.cursor + bytes.len(),
            flushes: st.flushes,
        }),
    decreases bytes.len(),
{
    if bytes.len() > 0 {
        lemma_write_all_quiet(write_step(st, bytes[0], size), bytes.drop_first(), size);
    } else {
        assert(write_all(st, bytes, size) =~= st);
    }
}

/// The I/O buffering threshold: writing exactly as many non-newline bytes
/// as the output buffer holds triggers exactly one flush, at the last
/// write, and none before it.
pub proof fn lemma_flush_threshold(bytes: Seq<u8>, size: int)
    requires
        0 < size,
        bytes.len() == size,
        forall|i: int| 0 <= i < bytes.len() ==> bytes[i] != NEWLINE,
    ensures
        forall|i: int|
            0 <= i < bytes.len() ==> write_all(
                empty_buffer(),
                #[trigger] bytes.take(i),
                size,
            ).flushes == 0,
        write_all(empty_buffer(), bytes, size) == (OutBufferModel { cursor: 0, flushes: 1 }),
{
    assert forall|i: int|
        0 <= i < bytes.len() implies write_all(empty_buffer(), #[trigger] bytes.take(i), size)
        .flushes == 0 by {
        lemma_write_all_quiet(empty_buffer(), bytes.take(i), size);
    }
    lemma_write_all_snoc(empty_buffer(), bytes, size);
    lemma_write_all_quiet(empty_buffer(), bytes.drop_last(), size);
    assert(bytes.drop_last() =~= bytes.take(size - 1));
}

/// The output buffer's run-time counters, executable, for exercising the
/// write policy on concrete bytes.
pub struct OutBuffer {
    /// Bytes buffered and not yet written.
    pub cursor: usize,
    /// Flush sequences triggered so far.
    pub flushes: usize,
}

impl View for OutBuffer {
    type V = OutBufferModel;

    open spec fn view(&self) -> OutBufferModel {
        OutBufferModel { cursor: self.cursor as int, flushes: self.flushes as int }
    }
}

impl OutBuffer {
    /// An empty buffer that has never flushed.
    pub fn new() -> (r: Self)
        ensures
            r@ == empty_buffer(),
    {
        Self { cursor: 0, flushes: 0 }
    }

    /// Runs one write against a buffer of the given size, exactly as the
    /// emitted code does: buffer the byte, then flush on a newline or on
    /// a full buffer.
    pub fn write(&mut self, byte: u8, size: usize)
        requires
            old(self).cursor < size,
            old(self).flushes < usize::MAX,
        ensures
            final(self)@ == write_step(old(self)@, byte, size as int),
    {
        self.cursor = self.cursor + 1;
        if byte == NEWLINE || self.cursor == size {
            self.cursor = 0;
            self.flushes = self.flushes + 1;
        }
    }
}

/// A run of `>` operators up to an increment operator folds to its length.
proof fn lemma_move_delta_run(s: Seq<u8>, i: int, k: int)
    requires
        0 <= i <= k < s.len(),
        forall|n: int| 0 <= n < k ==> s[n] == OP_SHIFT_RIGHT,
        s[k] == OP_INCREMENT || s[k] == OP_DECREMENT,
    ensures
        move_delta(s, i) == k - i,
    decreases k - i,
{
    if i < k {
        lemma_move_delta_run(s, i + 1, k);
    } else {
        assert(is_move_break(s[k]));
    }
}

/// Shift folding is sound: a run of `k` identical shift operators ended
/// by an operator of the opposite class folds into one shift token of
/// delta `k`, and the code compiled for that token moves the tape
/// position by exactly `k` modulo the tape length, from every position.
pub proof fn lemma_fold_shift_run(s: Seq<u8>, k: int, pos: int, len: int)
    requires
        1 <= k < s.len(),
        k < 0x8000_0000_0000_0000,
        forall|n: int| 0 <= n < k ==> s[n] == OP_SHIFT_RIGHT,
        s[k] == OP_INCREMENT || s[k] == OP_DECREMENT,
        0 < len,
        0 <= pos < len,
    ensures
        token_at(s, 0) == Token::Move(k as i64),
        shift_target(pos, rem_signed(k, len), len) == (pos + k) % len,
{
    lemma_move_delta_run(s, 0, k);
    assert(s[0] == OP_SHIFT_RIGHT);
    lemma_shift_reduction(pos, k, len);
}

} // verus!
