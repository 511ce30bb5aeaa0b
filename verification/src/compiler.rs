//! The code generator: one pass from tokens to machine code to ELF image.
//!
//! [`compile`] drains a [`Stream`] through [`parse`], translating each
//! token into instructions for an [`ElfAssembler`].  Loop nesting is
//! tracked with a LIFO stack of label pairs, so no program tree is ever
//! built; an unmatched bracket surfaces as a [`ParseError`] carrying the
//! bracket's recorded position.  Register roles are fixed:
//!
//! - `rbx`: base of the tape; `r8`: current tape position; `r9`: tape length
//! - `r14`: input buffer; `r10`: input cursor; `r12`: input byte count
//! - `rsp`: output buffer; `r13`: output cursor
//! - `r15`: scratch

use vstd::prelude::*;

use crate::bytes::{u32_le, u64_le, i32_le, lemma_le_widths};
use crate::elf::{BSS_VIRTUAL_ADDRESS, MAX_TEXT_SIZE, CODE_FILE_OFFSET, elf_prefix,
    lemma_elf_prefix_len};
use crate::elf_assembler::{ElfAssembler, AsmView, LabelView, appended, lemma_prefix_subrange,
    zero4};
use crate::parser::{Token, ParseError, SyntaxError, parse, token_end};
use crate::scan::{NEWLINE, col_of, line_of, OP_SHIFT_RIGHT, OP_SHIFT_LEFT, OP_INCREMENT, OP_DECREMENT, OP_WRITE,
    OP_READ, OP_LOOP_START, OP_LOOP_END, is_op, next_op, move_delta, move_end, add_delta,
    add_end, lemma_next_op, lemma_move_end, lemma_add_end, lemma_move_run, lemma_add_run};
use crate::semantics::rem_signed;
use crate::stream::Stream;

verus! {

/// Number of byte cells on the tape.
pub const TAPE_LENGTH: u64 = 30000;

/// Bytes in the input buffer.
pub const INPUT_BUFFER_SIZE: u64 = 16;

/// Bytes in the output buffer.
pub const OUTPUT_BUFFER_SIZE: u64 = 16;

/// The most tokens a source may fold into for [`compile`] to accept it.
/// Each token — a folded operator run, a bracket, a read or a write —
/// expands to a bounded stretch of machine code, so this cap keeps every
/// branch displacement inside its signed 32-bit encoding.  Comment bytes
/// and the lengths of folded runs are unconstrained; only the token
/// count is.
pub const MAX_SOURCE_TOKENS: usize = 0x0080_0000;

/// Machine code emitted for one token, at most.
pub const MAX_CODE_PER_TOKEN: usize = 200;

/// The 52-byte prologue: load the three region addresses, zero the
/// position and cursor registers, load the tape length.
pub open spec fn prologue_code() -> Seq<u8> {
    seq![0x48u8, 0xbbu8] + u64_le(BSS_VIRTUAL_ADDRESS as int)  // mov rbx, tape
        + seq![0x49u8, 0xbeu8] + u64_le(BSS_VIRTUAL_ADDRESS + TAPE_LENGTH)  // mov r14, input
        + seq![0x48u8, 0xbcu8] + u64_le(
        BSS_VIRTUAL_ADDRESS + TAPE_LENGTH + INPUT_BUFFER_SIZE,
    )  // mov rsp, output
        + seq![0x4du8, 0x31u8, 0xc0u8]  // xor r8, r8
        + seq![0x49u8, 0xb9u8] + u64_le(TAPE_LENGTH as int)  // mov r9, tape length
        + seq![0x4du8, 0x31u8, 0xd2u8]  // xor r10, r10
        + seq![0x4du8, 0x31u8, 0xe4u8]  // xor r12, r12
        + seq![0x4du8, 0x31u8, 0xedu8]  // xor r13, r13
}

/// The process-exit sequence: `mov eax, 0x3c`, the status into `edi`
/// (zeroed by `xor` when the status is 0), `syscall`.
pub open spec fn exit_code(status: int) -> Seq<u8> {
    seq![0xb8u8] + u32_le(0x3c) + (if status == 0 {
        seq![0x48u8, 0x31u8, 0xffu8]
    } else {
        seq![0xbfu8] + u32_le(status)
    }) + seq![0x0fu8, 0x05u8]
}

/// What scanning the brackets of a source finds: balance, or the byte
/// index of the offending bracket — the first unmatched `]`, or, when the
/// input ends inside a loop, the innermost unmatched `[`.
pub enum BracketOutcome {
    /// Every bracket matches.
    Balanced,
    /// The bracket at this byte index has no partner.
    Offending(int),
}

/// Scans brackets from `i` with the byte indices of the currently open
/// `[`s on `stack`.
pub open spec fn bracket_scan(s: Seq<u8>, i: int, stack: Seq<int>) -> BracketOutcome
    decreases s.len() - i,
{
    if i >= s.len() {
        if stack.len() == 0 {
            BracketOutcome::Balanced
        } else {
            BracketOutcome::Offending(stack.last())
        }
    } else if s[i] == OP_LOOP_START {
        bracket_scan(s, i + 1, stack.push(i))
    } else if s[i] == OP_LOOP_END {
        if stack.len() == 0 {
            BracketOutcome::Offending(i)
        } else {
            bracket_scan(s, i + 1, stack.drop_last())
        }
    } else {
        bracket_scan(s, i + 1, stack)
    }
}

/// Bytes that are not brackets leave the bracket scan unchanged.
proof fn lemma_scan_skip(s: Seq<u8>, i: int, j: int, stack: Seq<int>)
    requires
        0 <= i <= j <= s.len(),
        forall|k: int| i <= k < j ==> s[k] != OP_LOOP_START && s[k] != OP_LOOP_END,
    ensures
        bracket_scan(s, i, stack) == bracket_scan(s, j, stack),
    decreases j - i,
{
    if i < j {
        lemma_scan_skip(s, i + 1, j, stack);
    }
}

/// The common shape of one code-generation step: the assembler appended
/// at most `growth` bytes of code (patching only inside them), kept every
/// existing label entry, and resolved every label it created.
pub open spec fn advanced(pre: AsmView, post: AsmView, growth: int) -> bool {
    &&& post.alloc == pre.alloc
    &&& pre.code.len() <= post.code.len() <= pre.code.len() + growth
    &&& post.code.subrange(0, pre.code.len() as int) == pre.code
    &&& pre.labels.len() <= post.labels.len()
    &&& forall|l: int| 0 <= l < pre.labels.len() ==> post.labels[l] == pre.labels[l]
    &&& forall|l: int|
        pre.labels.len() <= l < post.labels.len() ==> (#[trigger] post.labels[l]) is Resolved
}

/// Steps compose: pending sites and their lower bounds survive, because
/// old labels are untouched and new ones end up resolved.
proof fn lemma_advanced_pending(pre: AsmView, post: AsmView, growth: int)
    requires
        advanced(pre, post, growth),
    ensures
        forall|l: int, sx: int| post.pending_site(l, sx) ==> pre.pending_site(l, sx),
{
    assert forall|l: int, sx: int| post.pending_site(l, sx) implies pre.pending_site(l, sx) by {
        if l < pre.labels.len() {
            assert(post.labels[l] == pre.labels[l]);
        } else {
            assert(post.labels[l] is Resolved);
        }
    }
}

/// Emits the process-exit sequence with the given status.
fn emit_exit(assembler: &mut ElfAssembler, code: u32)
    requires
        old(assembler)@.wf(),
    ensures
        final(assembler)@.wf(),
        appended(old(assembler)@, final(assembler)@, exit_code(code as int)),
{
    let ghost pre = assembler@;
    assembler.mov_rax_u32(0x3c);
    if code == 0 {
        assembler.xor_rdi_rdi();
    } else {
        assembler.mov_rdi_u32(code);
    }
    assembler.syscall();
    proof {
        assert(assembler@.code =~= pre.code + exit_code(code as int));
    }
}

/// The 66-byte flush sequence.  Writing starts over at the top of the
/// internal loop until the whole buffered length is out; a non-positive
/// syscall result exits with status 1; the branch displacements are
/// constants of the sequence itself.
pub open spec fn flush_code() -> Seq<u8> {
    seq![0x4du8, 0x31u8, 0xffu8]  // xor r15, r15: bytes written so far
        + seq![0xb8u8] + u32_le(1)  // mov eax, 1: sys_write
        + seq![0xbfu8] + u32_le(1)  // mov edi, 1: standard output
        + seq![0x48u8, 0x89u8, 0xe6u8]  // mov rsi, rsp
        + seq![0x4cu8, 0x01u8, 0xfeu8]  // add rsi, r15: skip written bytes
        + seq![0x4cu8, 0x89u8, 0xeau8]  // mov rdx, r13
        + seq![0x4cu8, 0x29u8, 0xfau8]  // sub rdx, r15: bytes remaining
        + seq![0x0fu8, 0x05u8]  // syscall
        + seq![0x48u8, 0x3du8] + u32_le(0)  // cmp rax, 0
        + seq![0x0fu8, 0x8fu8] + u32_le(12)  // jg over the failure exit
        + exit_code(1)
        + seq![0x49u8, 0x01u8, 0xc7u8]  // add r15, rax: count written bytes
        + seq![0x4du8, 0x39u8, 0xefu8]  // cmp r15, r13
        + seq![0x0fu8, 0x85u8] + i32_le(-60)  // jne back to the loop top
        + seq![0x4du8, 0x31u8, 0xedu8]  // xor r13, r13: buffer now empty
}

/// Emits exactly [`flush_code`]: write the unwritten remainder of the
/// output buffer until everything is out, exiting with a reserved status
/// on a failed write, then mark the buffer empty.
#[verifier::rlimit(100)]
fn emit_flush(assembler: &mut ElfAssembler)
    requires
        old(assembler)@.wf(),
        old(assembler)@.code.len() + 100 <= 0x7fff_ff00,
    ensures
        final(assembler)@.wf(),
        advanced(old(assembler)@, final(assembler)@, 66),
        final(assembler)@.code == old(assembler)@.code + flush_code(),
{
    let ghost pre = assembler@;
    proof {
        lemma_le_widths();
    }
    assembler.xor_r15_r15();
    let loop_start = assembler.allocate_label();
    let ghost va0 = assembler@;
    assembler.label(loop_start);
    let ghost va1 = assembler@;
    proof {
        assert forall|i: int| 0 <= i < va0.code.len() implies va1.code[i] == va0.code[i] by {
            if va1.code[i] != va0.code[i] {
                let sx = choose|sx: int|
                    va0.pending_site(loop_start as int, sx) && sx <= i < sx + 4;
                assert(!Seq::<int>::empty().contains(sx));
            }
        }
        assert(va1.code =~= va0.code);
        assert(va1.labels[loop_start as int] == LabelView::Resolved(pre.code.len() + 3int));
    }
    assembler.mov_rax_u32(0x01);
    assembler.mov_rdi_u32(0x01);
    assembler.mov_rsi_rsp();
    assembler.add_rsi_r15();
    assembler.mov_rdx_r13();
    assembler.sub_rdx_r15();
    assembler.syscall();
    let okay = assembler.allocate_label();
    assembler.cmp_rax_u32(0);
    let ghost v1 = assembler@;
    assembler.jg(okay);
    let ghost v2 = assembler@;
    emit_exit(assembler, 1);
    let ghost v3 = assembler@;
    assembler.label(okay);
    let ghost v4 = assembler@;
    assembler.add_r15_rax();
    assembler.cmp_r15_r13();
    let ghost v5 = assembler@;
    assembler.jne(loop_start);
    let ghost v6 = assembler@;
    assembler.xor_r13_r13();
    proof {
        let post = assembler@;
        let site = v1.code.len() + 2int;
        assert(v1.code.len() == pre.code.len() + 33);
        assert(v2.labels[okay as int] == LabelView::Pending(Seq::<int>::empty().push(site)));
        assert(v3.labels[okay as int] == v2.labels[okay as int]);
        assert(Seq::<int>::empty().push(site)[0] == site);
        assert(Seq::<int>::empty().push(site).contains(site));
        assert(v3.pending_site(okay as int, site));
        // the forward window over the failure exit holds 12
        assert(v4.code.subrange(site, site + 4) == u32_le(v3.code.len() - (site + 4)));
        assert(v3.code.len() - (site + 4) == 12);
        // bytes outside that window survive the patch
        assert forall|i: int| 0 <= i < v3.code.len() && !(site <= i < site + 4)
            implies v4.code[i] == v3.code[i] by {
            if v4.code[i] != v3.code[i] {
                let sx = choose|sx: int|
                    v3.pending_site(okay as int, sx) && sx <= i < sx + 4;
                assert(sx == site);
            }
        }
        // the backward branch to the loop top is encoded immediately
        assert(v5.labels[loop_start as int] == LabelView::Resolved(pre.code.len() + 3int));
        assert(v6.code =~= v5.code + seq![0x0fu8, 0x85u8] + i32_le(-60));
        assert(v1.code =~= pre.code + (seq![0x4du8, 0x31u8, 0xffu8] + seq![0xb8u8] + u32_le(1)
            + seq![0xbfu8] + u32_le(1) + seq![0x48u8, 0x89u8, 0xe6u8] + seq![
            0x4cu8,
            0x01u8,
            0xfeu8,
        ] + seq![0x4cu8, 0x89u8, 0xeau8] + seq![0x4cu8, 0x29u8, 0xfau8] + seq![0x0fu8, 0x05u8]
            + seq![0x48u8, 0x3du8] + u32_le(0)));
        assert(post.code =~= pre.code + flush_code()) by {
            assert forall|i: int| 0 <= i < post.code.len() implies post.code[i] == (pre.code
                + flush_code())[i] by {
                if i < v1.code.len() {
                    assert(v4.code[i] == v3.code[i]);
                    assert(post.code[i] == v1.code[i]);
                } else if i < site {
                    assert(v4.code[i] == v3.code[i]);
                    assert(post.code[i] == v2.code[i]);
                } else if i < site + 4 {
                    assert(post.code[i] == v4.code.subrange(site, site + 4)[i - site]);
                } else if i < v3.code.len() {
                    assert(v4.code[i] == v3.code[i]);
                    assert(post.code[i] == v3.code[i]);
                } else if i < v5.code.len() {
                    assert(post.code[i] == v5.code[i]);
                } else if i < v6.code.len() {
                    assert(post.code[i] == v6.code[i]);
                } else {
                }
            }
        }
        assert(post.code.subrange(0, pre.code.len() as int) =~= pre.code);
        assert forall|l: int| 0 <= l < pre.labels.len() implies post.labels[l] == pre.labels[l]
        by {}
        assert(post.labels[pre.labels.len() as int] is Resolved);
        assert(post.labels[pre.labels.len() + 1int] is Resolved);
        assert forall|l: int|
            pre.labels.len() <= l < post.labels.len() implies (#[trigger] post.labels[l])
            is Resolved by {}
    }
}

/// The 79-byte guarded flush: compare the output cursor with 0 and
/// branch over the whole [`flush_code`] sequence when the buffer is
/// empty.
pub open spec fn guarded_flush_code() -> Seq<u8> {
    seq![0x49u8, 0x81u8, 0xfdu8] + u32_le(0)  // cmp r13, 0
        + seq![0x0fu8, 0x84u8] + u32_le(66)  // je past the flush
        + flush_code()
}

/// Emits exactly [`guarded_flush_code`]: skip the flush sequence
/// entirely when the output buffer is empty.
fn emit_guarded_flush(assembler: &mut ElfAssembler)
    requires
        old(assembler)@.wf(),
        old(assembler)@.code.len() + 120 <= 0x7fff_ff00,
    ensures
        final(assembler)@.wf(),
        advanced(old(assembler)@, final(assembler)@, 79),
        final(assembler)@.code == old(assembler)@.code + guarded_flush_code(),
{
    let ghost pre = assembler@;
    proof {
        lemma_le_widths();
    }
    let skip_flush = assembler.allocate_label();
    assembler.cmp_r13_u32(0);
    let ghost v1 = assembler@;
    assembler.je(skip_flush);
    let ghost v2 = assembler@;
    emit_flush(assembler);
    let ghost v3 = assembler@;
    assembler.label(skip_flush);
    proof {
        let post = assembler@;
        let site = v1.code.len() + 2int;
        assert(v1.code.len() == pre.code.len() + 7);
        assert(v2.labels[skip_flush as int] == LabelView::Pending(
            Seq::<int>::empty().push(site),
        ));
        assert(v3.labels[skip_flush as int] == v2.labels[skip_flush as int]);
        assert(Seq::<int>::empty().push(site)[0] == site);
        assert(Seq::<int>::empty().push(site).contains(site));
        assert(v3.pending_site(skip_flush as int, site));
        // the skip window holds the length of the flush sequence
        assert(post.code.subrange(site, site + 4) == u32_le(v3.code.len() - (site + 4)));
        assert(v3.code.len() - (site + 4) == 66);
        assert forall|i: int| 0 <= i < v3.code.len() && !(site <= i < site + 4)
            implies post.code[i] == v3.code[i] by {
            if post.code[i] != v3.code[i] {
                let sx = choose|sx: int|
                    v3.pending_site(skip_flush as int, sx) && sx <= i < sx + 4;
                assert(sx == site);
            }
        }
        assert(v3.code =~= v2.code + flush_code());
        assert(post.code =~= pre.code + guarded_flush_code()) by {
            assert forall|i: int| 0 <= i < post.code.len() implies post.code[i] == (pre.code
                + guarded_flush_code())[i] by {
                if i < site {
                    assert(post.code[i] == v2.code[i]);
                } else if i < site + 4 {
                    assert(post.code[i] == post.code.subrange(site, site + 4)[i - site]);
                } else {
                    assert(post.code[i] == v3.code[i]);
                    assert(v3.code[i] == (v2.code + flush_code())[i]);
                }
            }
        }
        assert(post.code.subrange(0, pre.code.len() as int) =~= pre.code);
        assert forall|l: int| 0 <= l < pre.labels.len() implies post.labels[l] == pre.labels[l]
        by {}
        assert forall|l: int|
            pre.labels.len() <= l < post.labels.len() implies (#[trigger] post.labels[l])
            is Resolved by {}
    }
}

/// Reduces a folded shift into `(-tape length, +tape length)`: the
/// remainder with the dividend's sign.
fn reduce_shift(shift: i64) -> (w: i64)
    ensures
        w == rem_signed(shift as int, TAPE_LENGTH as int),
        -(TAPE_LENGTH as int) < w < TAPE_LENGTH as int,
{
    if shift >= 0 {
        ((shift as u64) % TAPE_LENGTH) as i64
    } else {
        let magnitude = (-(shift as i128)) as u64;
        -((magnitude % TAPE_LENGTH) as i64)
    }
}

/// Reduces a folded increment to its effect on an 8-bit cell: the value
/// modulo 256, in `[0, 255]`.
fn reduce_increment(value: i64) -> (w: u8)
    ensures
        w as int == (value as int) % 256,
{
    if value >= 0 {
        let w = ((value as u64) % 256) as u8;
        proof {
            vstd::arithmetic::div_mod::lemma_fundamental_div_mod(value as int, 256);
        }
        w
    } else {
        let magnitude = (-(value as i128)) as u64;
        let r = (magnitude % 256) as u8;
        proof {
            vstd::arithmetic::div_mod::lemma_fundamental_div_mod(magnitude as int, 256);
            let q = magnitude as int / 256;
            if r == 0 {
                vstd::arithmetic::div_mod::lemma_fundamental_div_mod_converse(
                    value as int,
                    256,
                    -q,
                    0,
                );
            } else {
                vstd::arithmetic::div_mod::lemma_fundamental_div_mod_converse(
                    value as int,
                    256,
                    -q - 1,
                    256 - r,
                );
            }
        }
        if r == 0 {
            0
        } else {
            (256u16 - (r as u16)) as u8
        }
    }
}

/// The machine code emitted for a folded shift reduced to `w` in
/// `(-tape length, +tape length)`: nothing for 0; otherwise a signed add
/// of `w` to the position register, with the narrowest immediate that
/// holds it, followed by the wraparound correction — after a positive
/// shift, a flags-preserving copy, subtract and conditional move; after a
/// negative one, a branch over an add of the tape length, taken unless
/// the sign flag is set (a constant forward displacement of 3).
pub open spec fn move_code(w: int) -> Seq<u8> {
    if w == 0 {
        Seq::empty()
    } else {
        (if -128 <= w <= 127 {
            seq![0x49u8, 0x83u8, 0xc0u8, (if w < 0 {
                w + 256
            } else {
                w
            }) as u8]
        } else {
            seq![0x49u8, 0x81u8, 0xc0u8] + i32_le(w)
        }) + (if w > 0 {
            seq![
                0x4du8, 0x89u8, 0xc7u8,  // mov r15, r8
                0x4du8, 0x29u8, 0xcfu8,  // sub r15, r9
                0x4du8, 0x0fu8, 0x43u8, 0xc7u8,  // cmovae r8, r15
            ]
        } else {
            seq![0x0fu8, 0x89u8] + u32_le(3) + seq![0x4du8, 0x01u8, 0xc8u8]
        })
    }
}

/// Emits exactly [`move_code`] for the folded shift, reduced modulo the
/// tape length with the dividend's sign.
fn emit_move(assembler: &mut ElfAssembler, shift: i64)
    requires
        old(assembler)@.wf(),
        old(assembler)@.code.len() + 200 <= 0x7fff_ff00,
    ensures
        final(assembler)@.wf(),
        advanced(old(assembler)@, final(assembler)@, 17),
        final(assembler)@.code == old(assembler)@.code + move_code(
            rem_signed(shift as int, TAPE_LENGTH as int),
        ),
{
    let ghost pre = assembler@;
    proof {
        lemma_le_widths();
    }
    let wrapped_shift = reduce_shift(shift);
    let ghost w = rem_signed(shift as int, TAPE_LENGTH as int);
    if wrapped_shift == 0 {
        proof {
            assert(assembler@.code.subrange(0, assembler@.code.len() as int)
                =~= assembler@.code);
            assert(pre.code + move_code(w) =~= pre.code);
        }
        return ;
    }
    if -128 <= wrapped_shift && wrapped_shift <= 127 {
        assembler.add_r8_i8(wrapped_shift as i8);
    } else {
        assembler.add_r8_i32(wrapped_shift as i32);
    }
    let ghost added = assembler@.code.subrange(pre.code.len() as int, assembler@.code.len() as int);
    proof {
        lemma_le_widths();
        assert(assembler@.code =~= pre.code + added);
        if -128 <= w <= 127 {
            assert(added =~= seq![0x49u8, 0x83u8, 0xc0u8, (if w < 0 {
                w + 256
            } else {
                w
            }) as u8]);
        } else {
            assert(added =~= seq![0x49u8, 0x81u8, 0xc0u8] + i32_le(w));
        }
    }
    if wrapped_shift > 0 {
        assembler.mov_r15_r8();
        assembler.sub_r15_r9();
        assembler.cmovae_r8_r15();
        proof {
            let post = assembler@;
            assert(post.code.subrange(0, pre.code.len() as int) =~= pre.code);
            assert(post.code =~= pre.code + move_code(w));
        }
    } else {
        let done = assembler.allocate_label();
        let ghost v1 = assembler@;
        assembler.jns(done);
        let ghost v2 = assembler@;
        assembler.add_r8_r9();
        let ghost v3 = assembler@;
        assembler.label(done);
        proof {
            let post = assembler@;
            let site = v1.code.len() + 2int;
            assert(v2.labels[done as int] == LabelView::Pending(
                Seq::<int>::empty().push(site),
            ));
            assert(v3.labels[done as int] == v2.labels[done as int]);
            assert forall|i: int| 0 <= i < v3.code.len() && !(site <= i < site + 4)
                implies post.code[i] == v3.code[i] by {
                if post.code[i] != v3.code[i] {
                    let sx = choose|sx: int|
                        v3.pending_site(done as int, sx) && sx <= i < sx + 4;
                    assert(Seq::<int>::empty().push(site)[0] == site);
                    assert(sx == site);
                }
            }
            assert forall|i: int| 0 <= i < pre.code.len() implies post.code[i] == pre.code[i]
            by {
                assert(v1.code[i] == pre.code[i]);
                assert(v2.code[i] == v1.code[i]);
                assert(v3.code[i] == v2.code[i]);
            }
            assert(post.code.subrange(0, pre.code.len() as int) =~= pre.code);
            // the branch window holds the constant displacement over the
            // 3-byte correction
            assert(Seq::<int>::empty().push(site)[0] == site);
            assert(Seq::<int>::empty().push(site).contains(site));
            assert(v3.pending_site(done as int, site));
            assert(post.code.subrange(site, site + 4) == u32_le(v3.code.len() - (site + 4)));
            assert(v3.code.len() - (site + 4) == 3);
            assert(post.code =~= pre.code + move_code(w)) by {
                assert(v2.code =~= v1.code + seq![0x0fu8, 0x89u8] + crate::elf_assembler::zero4());
                assert(v3.code =~= v2.code + seq![0x4du8, 0x01u8, 0xc8u8]);
                assert forall|i: int| 0 <= i < post.code.len() implies post.code[i]
                    == (pre.code + move_code(w))[i] by {
                    if i < pre.code.len() {
                    } else if i < v1.code.len() {
                        assert(post.code[i] == v1.code[i]);
                        assert(v1.code[i] == added[i - pre.code.len()]);
                    } else if i < site {
                        assert(post.code[i] == v3.code[i]);
                    } else if i < site + 4 {
                        assert(post.code[i] == post.code.subrange(site, site + 4)[i - site]);
                    } else {
                        assert(post.code[i] == v3.code[i]);
                    }
                }
            }
            assert forall|l: int| 0 <= l < pre.labels.len() implies post.labels[l]
                == pre.labels[l] by {}
            assert forall|l: int|
                pre.labels.len() <= l < post.labels.len() implies (#[trigger] post.labels[l])
                is Resolved by {}
        }
    }
}

/// The machine code emitted for a folded increment reduced to `w` in
/// `[0, 256)`: nothing for 0, an indexed increment for 1, an indexed
/// decrement for 255, and an indexed 8-bit immediate add otherwise — an
/// encoding-size choice only, since all three forms wrap identically.
pub open spec fn cell_code(w: int) -> Seq<u8> {
    if w == 0 {
        Seq::empty()
    } else if w == 1 {
        seq![0x42u8, 0xfeu8, 0x04u8, 0x03u8]
    } else if w == 255 {
        seq![0x42u8, 0xfeu8, 0x0cu8, 0x03u8]
    } else {
        seq![0x42u8, 0x80u8, 0x04u8, 0x03u8, w as u8]
    }
}

/// Emits exactly [`cell_code`] for the folded increment, reduced modulo
/// 256.
fn emit_add(assembler: &mut ElfAssembler, value: i64)
    requires
        old(assembler)@.wf(),
    ensures
        final(assembler)@.wf(),
        advanced(old(assembler)@, final(assembler)@, 5),
        final(assembler)@.code == old(assembler)@.code + cell_code((value as int) % 256),
{
    let ghost pre = assembler@;
    let wrapped_value = reduce_increment(value);
    if wrapped_value == 0 {
        proof {
            assert(pre.code + cell_code((value as int) % 256) =~= pre.code);
        }
    } else if wrapped_value == 1 {
        assembler.inc_byte_ptr_rbx_plus_r8();
    } else if wrapped_value == 255 {
        assembler.dec_byte_ptr_rbx_plus_r8();
    } else {
        assembler.add_byte_ptr_rbx_plus_r8_u8(wrapped_value);
    }
    proof {
        let post = assembler@;
        assert(post.code.subrange(0, pre.code.len() as int) =~= pre.code);
    }
}

/// The 145-byte read sequence: when the input buffer is exhausted
/// (cursor equals the recorded byte count), run [`guarded_flush_code`],
/// refill the buffer with a read syscall — a non-positive result exits
/// with status 2; end of input and read failure are deliberately not
/// distinguished — then copy one byte from the buffer to the current
/// cell and advance the cursor.
pub open spec fn read_code() -> Seq<u8> {
    seq![0x4du8, 0x39u8, 0xe2u8]  // cmp r10, r12
        + seq![0x0fu8, 0x85u8] + u32_le(125)  // jne over the refill
        + guarded_flush_code()
        + seq![0x48u8, 0x31u8, 0xc0u8]  // xor rax, rax: sys_read
        + seq![0x48u8, 0x31u8, 0xffu8]  // xor rdi, rdi: standard input
        + seq![0x4cu8, 0x89u8, 0xf6u8]  // mov rsi, r14
        + seq![0xbau8] + u32_le(16)  // mov edx, buffer size
        + seq![0x0fu8, 0x05u8]  // syscall
        + seq![0x48u8, 0x3du8] + u32_le(0)  // cmp rax, 0
        + seq![0x0fu8, 0x8fu8] + u32_le(12)  // jg over the failure exit
        + exit_code(2)
        + seq![0x49u8, 0x89u8, 0xc4u8]  // mov r12, rax: bytes available
        + seq![0x4du8, 0x31u8, 0xd2u8]  // xor r10, r10: cursor to zero
        + seq![0x47u8, 0x8au8, 0x3cu8, 0x16u8]  // mov r15b, [r14 + r10]
        + seq![0x46u8, 0x88u8, 0x3cu8, 0x03u8]  // mov [rbx + r8], r15b
        + seq![0x49u8, 0xffu8, 0xc2u8]  // inc r10
}

/// Emits exactly [`read_code`].
#[verifier::rlimit(100)]
fn emit_read(assembler: &mut ElfAssembler)
    requires
        old(assembler)@.wf(),
        old(assembler)@.code.len() + 200 <= 0x7fff_ff00,
    ensures
        final(assembler)@.wf(),
        advanced(old(assembler)@, final(assembler)@, 145),
        final(assembler)@.code == old(assembler)@.code + read_code(),
{
    let ghost pre = assembler@;
    proof {
        lemma_le_widths();
    }
    let data_in_buffer = assembler.allocate_label();
    assembler.cmp_r10_r12();
    let ghost v1 = assembler@;
    assembler.jne(data_in_buffer);
    let ghost v2 = assembler@;
    emit_guarded_flush(assembler);
    let ghost vg = assembler@;
    assembler.xor_rax_rax();
    assembler.xor_rdi_rdi();
    assembler.mov_rsi_r14();
    assembler.mov_rdx_u32(INPUT_BUFFER_SIZE as u32);
    assembler.syscall();
    let okay = assembler.allocate_label();
    let ghost v3 = assembler@;
    assembler.cmp_rax_u32(0);
    let ghost v4 = assembler@;
    assembler.jg(okay);
    let ghost v5 = assembler@;
    emit_exit(assembler, 2);
    let ghost v6 = assembler@;
    assembler.label(okay);
    let ghost v7 = assembler@;
    assembler.mov_r12_rax();
    assembler.xor_r10_r10();
    let ghost v8 = assembler@;
    assembler.label(data_in_buffer);
    let ghost v9 = assembler@;
    assembler.mov_r15b_byte_ptr_r14_plus_r10();
    assembler.mov_byte_ptr_rbx_plus_r8_r15b();
    assembler.inc_r10();
    proof {
        let post = assembler@;
        let site_data = v1.code.len() + 2int;
        let site_okay = v4.code.len() + 2int;
        assert(v1.code.len() == pre.code.len() + 3);
        assert(vg.code.len() == pre.code.len() + 88);
        assert(v4.code.len() == pre.code.len() + 110);
        assert(v2.labels[data_in_buffer as int] == LabelView::Pending(
            Seq::<int>::empty().push(site_data),
        ));
        assert(v5.labels[okay as int] == LabelView::Pending(
            Seq::<int>::empty().push(site_okay),
        ));
        assert(v8.labels[data_in_buffer as int] == v2.labels[data_in_buffer as int]);
        assert(v6.labels[okay as int] == v5.labels[okay as int]);
        assert(Seq::<int>::empty().push(site_okay)[0] == site_okay);
        assert(Seq::<int>::empty().push(site_okay).contains(site_okay));
        assert(v6.pending_site(okay as int, site_okay));
        assert(Seq::<int>::empty().push(site_data)[0] == site_data);
        assert(Seq::<int>::empty().push(site_data).contains(site_data));
        assert(v8.pending_site(data_in_buffer as int, site_data));
        // the okay window holds 12: over the failure exit
        assert(v7.code.subrange(site_okay, site_okay + 4) == u32_le(
            v6.code.len() - (site_okay + 4),
        ));
        assert(v6.code.len() - (site_okay + 4) == 12);
        assert forall|i: int| 0 <= i < v6.code.len() && !(site_okay <= i < site_okay + 4)
            implies v7.code[i] == v6.code[i] by {
            if v7.code[i] != v6.code[i] {
                let sx = choose|sx: int|
                    v6.pending_site(okay as int, sx) && sx <= i < sx + 4;
                assert(sx == site_okay);
            }
        }
        // the refill-skip window holds 125: over the whole refill
        assert(v9.code.subrange(site_data, site_data + 4) == u32_le(
            v8.code.len() - (site_data + 4),
        ));
        assert(v8.code.len() - (site_data + 4) == 125);
        assert forall|i: int| 0 <= i < v8.code.len() && !(site_data <= i < site_data + 4)
            implies v9.code[i] == v8.code[i] by {
            if v9.code[i] != v8.code[i] {
                let sx = choose|sx: int|
                    v8.pending_site(data_in_buffer as int, sx) && sx <= i < sx + 4;
                assert(sx == site_data);
            }
        }
        assert(vg.code =~= v2.code + guarded_flush_code());
        assert(v9.code.len() == pre.code.len() + 134);
        let tail9 = seq![
            0x47u8, 0x8au8, 0x3cu8, 0x16u8,
            0x46u8, 0x88u8, 0x3cu8, 0x03u8,
            0x49u8, 0xffu8, 0xc2u8,
        ];
        assert(post.code =~= v9.code + tail9);
        assert(post.code =~= pre.code + read_code()) by {
            assert forall|i: int| 0 <= i < post.code.len() implies post.code[i] == (pre.code
                + read_code())[i] by {
                if i < site_data {
                    assert(v7.code[i] == v6.code[i]);
                    assert(v9.code[i] == v8.code[i]);
                    assert(post.code[i] == v2.code[i]);
                } else if i < site_data + 4 {
                    assert(v9.code[i] == v9.code.subrange(site_data, site_data + 4)[i
                        - site_data]);
                    assert(post.code[i] == v9.code[i]);
                } else if i < vg.code.len() {
                    assert(v7.code[i] == v6.code[i]);
                    assert(v9.code[i] == v8.code[i]);
                    assert(post.code[i] == vg.code[i]);
                    assert(vg.code[i] == (v2.code + guarded_flush_code())[i]);
                } else if i < site_okay {
                    assert(v7.code[i] == v6.code[i]);
                    assert(v9.code[i] == v8.code[i]);
                    assert(post.code[i] == v6.code[i]);
                } else if i < site_okay + 4 {
                    assert(v9.code[i] == v8.code[i]);
                    assert(v7.code[i] == v7.code.subrange(site_okay, site_okay + 4)[i
                        - site_okay]);
                    assert(post.code[i] == v7.code[i]);
                } else if i < v6.code.len() {
                    assert(v7.code[i] == v6.code[i]);
                    assert(v9.code[i] == v8.code[i]);
                    assert(post.code[i] == v6.code[i]);
                } else if i < v8.code.len() {
                    assert(v9.code[i] == v8.code[i]);
                    assert(post.code[i] == v8.code[i]);
                } else {
                    assert(post.code[i] == tail9[i - v9.code.len()]);
                }
            }
        }
        assert(post.code.subrange(0, pre.code.len() as int) =~= pre.code);
        assert forall|l: int| 0 <= l < pre.labels.len() implies post.labels[l] == pre.labels[l]
        by {}
        assert forall|l: int|
            pre.labels.len() <= l < post.labels.len() implies (#[trigger] post.labels[l])
            is Resolved by {}
    }
}

/// The 100-byte write sequence: copy the current cell into the output
/// buffer, advance the cursor, then run [`flush_code`] when the byte was
/// a newline or the cursor reached the buffer size; the branch
/// displacements are constants of the sequence itself.
pub open spec fn write_code() -> Seq<u8> {
    seq![0x46u8, 0x8au8, 0x3cu8, 0x03u8]  // mov r15b, [rbx + r8]
        + seq![0x46u8, 0x88u8, 0x3cu8, 0x2cu8]  // mov [rsp + r13], r15b
        + seq![0x49u8, 0xffu8, 0xc5u8]  // inc r13
        + seq![0x41u8, 0x80u8, 0xffu8, 0x0au8]  // cmp r15b, newline
        + seq![0x0fu8, 0x84u8] + u32_le(13)  // je to the flush
        + seq![0x49u8, 0x81u8, 0xfdu8] + u32_le(16)  // cmp r13, buffer size
        + seq![0x0fu8, 0x85u8] + u32_le(66)  // jne over the flush
        + flush_code()
}

/// Emits exactly [`write_code`].
#[verifier::rlimit(100)]
fn emit_write(assembler: &mut ElfAssembler)
    requires
        old(assembler)@.wf(),
        old(assembler)@.code.len() + 200 <= 0x7fff_ff00,
    ensures
        final(assembler)@.wf(),
        advanced(old(assembler)@, final(assembler)@, 100),
        final(assembler)@.code == old(assembler)@.code + write_code(),
{
    let ghost pre = assembler@;
    proof {
        lemma_le_widths();
    }
    assembler.mov_r15b_byte_ptr_rbx_plus_r8();
    assembler.mov_byte_ptr_rsp_plus_r13_r15b();
    assembler.inc_r13();
    let flush = assembler.allocate_label();
    let done = assembler.allocate_label();
    assembler.cmp_r15b_u8(NEWLINE);
    let ghost v1 = assembler@;
    assembler.je(flush);
    let ghost v2 = assembler@;
    assembler.cmp_r13_u32(OUTPUT_BUFFER_SIZE as u32);
    let ghost v3 = assembler@;
    assembler.jne(done);
    let ghost v4 = assembler@;
    assembler.label(flush);
    let ghost v5 = assembler@;
    emit_flush(assembler);
    let ghost v6 = assembler@;
    assembler.label(done);
    proof {
        let post = assembler@;
        let site_flush = v1.code.len() + 2int;
        let site_done = v3.code.len() + 2int;
        assert(v1.code.len() == pre.code.len() + 15);
        assert(v3.code.len() == pre.code.len() + 28);
        assert(v2.labels[flush as int] == LabelView::Pending(
            Seq::<int>::empty().push(site_flush),
        ));
        assert(v4.labels[flush as int] == v2.labels[flush as int]);
        assert(v4.labels[done as int] == LabelView::Pending(
            Seq::<int>::empty().push(site_done),
        ));
        assert(v6.labels[done as int] == v4.labels[done as int]);
        assert(Seq::<int>::empty().push(site_flush)[0] == site_flush);
        assert(Seq::<int>::empty().push(site_flush).contains(site_flush));
        assert(v4.pending_site(flush as int, site_flush));
        assert(Seq::<int>::empty().push(site_done)[0] == site_done);
        assert(Seq::<int>::empty().push(site_done).contains(site_done));
        assert(v6.pending_site(done as int, site_done));
        // the flush window holds 13: over the size test and its branch
        assert(v5.code.subrange(site_flush, site_flush + 4) == u32_le(
            v4.code.len() - (site_flush + 4),
        ));
        assert(v4.code.len() - (site_flush + 4) == 13);
        assert forall|i: int| 0 <= i < v4.code.len() && !(site_flush <= i < site_flush + 4)
            implies v5.code[i] == v4.code[i] by {
            if v5.code[i] != v4.code[i] {
                let sx = choose|sx: int|
                    v4.pending_site(flush as int, sx) && sx <= i < sx + 4;
                assert(sx == site_flush);
            }
        }
        // the done window holds 66: over the whole flush sequence
        assert(post.code.subrange(site_done, site_done + 4) == u32_le(
            v6.code.len() - (site_done + 4),
        ));
        assert(v6.code.len() - (site_done + 4) == 66);
        assert forall|i: int| 0 <= i < v6.code.len() && !(site_done <= i < site_done + 4)
            implies post.code[i] == v6.code[i] by {
            if post.code[i] != v6.code[i] {
                let sx = choose|sx: int|
                    v6.pending_site(done as int, sx) && sx <= i < sx + 4;
                assert(sx == site_done);
            }
        }
        assert(v6.code =~= v5.code + flush_code());
        assert(post.code =~= pre.code + write_code()) by {
            assert forall|i: int| 0 <= i < post.code.len() implies post.code[i] == (pre.code
                + write_code())[i] by {
                if i < site_flush {
                    assert(v5.code[i] == v4.code[i]);
                    assert(post.code[i] == v4.code[i]);
                } else if i < site_flush + 4 {
                    assert(post.code[i] == v5.code[i]);
                    assert(v5.code[i] == v5.code.subrange(site_flush, site_flush + 4)[i
                        - site_flush]);
                } else if i < site_done {
                    assert(v5.code[i] == v4.code[i]);
                    assert(post.code[i] == v4.code[i]);
                } else if i < site_done + 4 {
                    assert(post.code[i] == post.code.subrange(site_done, site_done + 4)[i
                        - site_done]);
                } else if i < v4.code.len() {
                    assert(v5.code[i] == v4.code[i]);
                    assert(post.code[i] == v4.code[i]);
                } else {
                    assert(post.code[i] == v6.code[i]);
                    assert(v6.code[i] == (v5.code + flush_code())[i]);
                }
            }
        }
        assert(post.code.subrange(0, pre.code.len() as int) =~= pre.code);
        assert forall|l: int| 0 <= l < pre.labels.len() implies post.labels[l] == pre.labels[l]
        by {}
        assert forall|l: int|
            pre.labels.len() <= l < post.labels.len() implies (#[trigger] post.labels[l])
            is Resolved by {}
    }
}

/// The loop-head code: compare the current cell with zero and branch to
/// the still-unknown end of the loop; the displacement window, at offset
/// 7 from the head, starts out zero-filled and is patched when the loop
/// closes.
pub open spec fn loop_head_code() -> Seq<u8> {
    seq![0x42u8, 0x80u8, 0x3cu8, 0x03u8, 0x00u8]  // cmp byte [rbx + r8], 0
        + seq![0x0fu8, 0x84u8] + zero4()  // je end (patched when the loop closes)
}

/// `code` with the 4-byte window at `at` replaced by `w`.
pub open spec fn splice4(code: Seq<u8>, at: int, w: Seq<u8>) -> Seq<u8> {
    code.take(at) + w + code.skip(at + 4)
}

/// Closes the loop whose head window sits at `site` in `code`: compare
/// the cell again, branch back to the head — defined just past its
/// window — and patch the window with the forward displacement to just
/// past this code.
pub open spec fn close_loop(code: Seq<u8>, site: int) -> Seq<u8> {
    let with_end = code + seq![0x42u8, 0x80u8, 0x3cu8, 0x03u8, 0x00u8] + seq![0x0fu8, 0x85u8]
        + i32_le((site + 4) - (code.len() + 11));
    splice4(with_end, site, u32_le(with_end.len() - (site + 4)))
}

/// The code generator, as mathematics: folds the token stream from `i`
/// onto the code emitted so far, carrying the window offsets of the open
/// loops' forward branches, and closes a balanced source with the final
/// guarded flush and the exit.  An unbalanced source never compiles, so
/// what this returns at an unmatched `]` is never relied on.
pub open spec fn gen_from(s: Seq<u8>, i: int, code: Seq<u8>, stack: Seq<int>) -> Seq<u8>
    decreases s.len() - i
        when 0 <= i <= s.len()
        via gen_from_decreases
{
    let j = next_op(s, i);
    if j == s.len() {
        code + guarded_flush_code() + exit_code(0)
    } else if s[j] == OP_SHIFT_RIGHT || s[j] == OP_SHIFT_LEFT {
        gen_from(
            s,
            move_end(s, j + 1),
            code + move_code(rem_signed(move_delta(s, j), TAPE_LENGTH as int)),
            stack,
        )
    } else if s[j] == OP_INCREMENT || s[j] == OP_DECREMENT {
        gen_from(
            s,
            add_end(s, j + 1),
            code + cell_code(add_delta(s, j) % 256),
            stack,
        )
    } else if s[j] == OP_WRITE {
        gen_from(s, j + 1, code + write_code(), stack)
    } else if s[j] == OP_READ {
        gen_from(s, j + 1, code + read_code(), stack)
    } else if s[j] == OP_LOOP_START {
        gen_from(s, j + 1, code + loop_head_code(), stack.push(code.len() + 7int))
    } else {
        if stack.len() == 0 {
            code
        } else {
            gen_from(s, j + 1, close_loop(code, stack.last()), stack.drop_last())
        }
    }
}

#[via_fn]
proof fn gen_from_decreases(s: Seq<u8>, i: int, code: Seq<u8>, stack: Seq<int>) {
    lemma_next_op(s, i);
    let j = next_op(s, i);
    if j < s.len() {
        lemma_move_end(s, j + 1);
        lemma_add_end(s, j + 1);
    }
}

/// How many tokens the source holds from `i` on: each maximal folded
/// run, bracket, read or write is one; the end of the input is none.
pub open spec fn token_count(s: Seq<u8>, i: int) -> nat
    decreases s.len() - i
        when 0 <= i <= s.len()
        via token_count_decreases
{
    let j = next_op(s, i);
    if j == s.len() {
        0
    } else {
        1 + token_count(s, token_end(s, j))
    }
}

#[via_fn]
proof fn token_count_decreases(s: Seq<u8>, i: int) {
    lemma_next_op(s, i);
    let j = next_op(s, i);
    if j < s.len() {
        lemma_move_end(s, j + 1);
        lemma_add_end(s, j + 1);
    }
}

/// Operator bytes in `s` from `i` on.
pub open spec fn op_count(s: Seq<u8>, i: int) -> nat
    decreases s.len() - i,
{
    if i >= s.len() {
        0
    } else if is_op(s[i]) {
        1 + op_count(s, i + 1)
    } else {
        op_count(s, i + 1)
    }
}

/// Comment bytes do not change the operator count.
proof fn lemma_op_count_skip(s: Seq<u8>, i: int, j: int)
    requires
        0 <= i <= j <= s.len(),
        forall|k: int| i <= k < j ==> !is_op(s[k]),
    ensures
        op_count(s, i) == op_count(s, j),
    decreases j - i,
{
    if i < j {
        lemma_op_count_skip(s, i + 1, j);
    }
}

/// Scanning from later in the source finds no more operators.
proof fn lemma_op_count_mono(s: Seq<u8>, a: int, b: int)
    requires
        0 <= a <= b <= s.len(),
    ensures
        op_count(s, b) <= op_count(s, a),
    decreases b - a,
{
    if a < b {
        lemma_op_count_mono(s, a + 1, b);
    }
}

/// Every token starts at its own operator byte, so a source never holds
/// more tokens than operator bytes: a caller may bound the token count
/// by counting operators.
pub proof fn lemma_token_count_le_ops(s: Seq<u8>, i: int)
    requires
        0 <= i <= s.len(),
    ensures
        token_count(s, i) <= op_count(s, i),
    decreases s.len() - i,
{
    lemma_next_op(s, i);
    let j = next_op(s, i);
    if j < s.len() {
        lemma_move_end(s, j + 1);
        lemma_add_end(s, j + 1);
        let e = token_end(s, j);
        lemma_token_count_le_ops(s, e);
        lemma_op_count_skip(s, i, j);
        lemma_op_count_mono(s, j + 1, e);
    } else {
        lemma_op_count_mono(s, i, s.len() as int);
    }
}

/// One open loop: the backward branch target defined at its head, the
/// forward target awaiting its end, and the position of its `[`.
#[derive(Clone, Copy)]
struct Frame {
    start: usize,
    end: usize,
    line: usize,
    column: usize,
    at: Ghost<int>,
    site: Ghost<int>,
}

/// Byte indices of the currently open `[`s, innermost last.
spec fn stack_indices(frames: Seq<Frame>) -> Seq<int> {
    frames.map_values(|f: Frame| f.at@)
}

/// Window offsets of the open loops' forward branches, innermost last.
spec fn window_sites(frames: Seq<Frame>) -> Seq<int> {
    frames.map_values(|f: Frame| f.site@)
}

/// One open loop is sound: its head label is defined, its end label is
/// still pending, and its recorded position points at a `[` in the
/// source.
spec fn frame_ok(v: AsmView, f: Frame, s: Seq<u8>) -> bool {
    &&& (f.start as int) < v.labels.len()
    &&& (f.end as int) < v.labels.len()
    &&& v.labels[f.start as int] == LabelView::Resolved(f.site@ + 4)
    &&& v.labels[f.end as int] == LabelView::Pending(Seq::<int>::empty().push(f.site@))
    &&& 0 <= f.at@ < s.len()
    &&& s[f.at@] == OP_LOOP_START
    &&& f.line == line_of(s, f.at@)
    &&& f.column == col_of(s, f.at@)
}

/// The loop stack is sound, its end labels are distinct, and every
/// pending label is the end label of some open loop.
spec fn stack_ok(v: AsmView, frames: Seq<Frame>, s: Seq<u8>) -> bool {
    &&& forall|k: int| 0 <= k < frames.len() ==> frame_ok(v, #[trigger] frames[k], s)
    &&& forall|k1: int, k2: int|
        0 <= k1 < k2 < frames.len() ==> (#[trigger] frames[k1]).end != (
        #[trigger] frames[k2]).end
    &&& forall|l: int|
        0 <= l < v.labels.len() && (#[trigger] v.labels[l]) is Pending ==> exists|k: int|
            0 <= k < frames.len() && (#[trigger] frames[k]).end == l
}

/// A code-generation step that keeps old labels and resolves its own
/// leaves the loop stack sound.
proof fn lemma_stack_ok_preserved(v1: AsmView, v2: AsmView, frames: Seq<Frame>, s: Seq<u8>)
    requires
        stack_ok(v1, frames, s),
        v1.labels.len() <= v2.labels.len(),
        forall|l: int| 0 <= l < v1.labels.len() ==> v2.labels[l] == v1.labels[l],
        forall|l: int|
            v1.labels.len() <= l < v2.labels.len() ==> (#[trigger] v2.labels[l]) is Resolved,
    ensures
        stack_ok(v2, frames, s),
{
    assert forall|k: int| 0 <= k < frames.len() implies frame_ok(v2, #[trigger] frames[k], s)
    by {
        assert(frame_ok(v1, frames[k], s));
        assert(v2.labels[frames[k].start as int] == v1.labels[frames[k].start as int]);
        assert(v2.labels[frames[k].end as int] == v1.labels[frames[k].end as int]);
    }
    assert forall|l: int|
        0 <= l < v2.labels.len() && (#[trigger] v2.labels[l]) is Pending implies exists|k: int|
        0 <= k < frames.len() && (#[trigger] frames[k]).end == l by {
        if l < v1.labels.len() {
            assert(v1.labels[l] is Pending);
        } else {
            assert(v2.labels[l] is Resolved);
        }
    }
}

/// Compiles the whole token stream into a runnable ELF image.
///
/// On success the image is exactly [`crate::elf::elf_image`] of the code
/// that the mathematical generator [`gen_from`] assigns to the source:
/// the headers of [`elf_prefix`], the 52-byte [`prologue_code`], the
/// translated body, and the closing [`guarded_flush_code`] and
/// [`exit_code`]`(0)`; the zero-fill segment holds the tape and both I/O
/// buffers.  Success is owed exactly when the source's brackets balance;
/// an unmatched bracket is reported at its own recorded position — the
/// first unmatched `]`, or the innermost `[` left open at the end.
#[verifier::rlimit(100)]
pub fn compile(stream: Stream) -> (r: Result<Vec<u8>, ParseError>)
    requires
        stream.wf(),
        token_count(stream.src(), stream.pos()) <= MAX_SOURCE_TOKENS,
    ensures
        r is Ok <==> bracket_scan(stream.src(), stream.pos(), Seq::empty()) is Balanced,
        ({
            let s = stream.src();
            let p0 = stream.pos();
            match r {
                Ok(image) => {
                    &&& image@ == crate::elf::elf_image(
                        gen_from(s, p0, prologue_code(), Seq::empty()),
                        TAPE_LENGTH + INPUT_BUFFER_SIZE + OUTPUT_BUFFER_SIZE,
                    )
                    &&& image@.len() >= CODE_FILE_OFFSET + 141
                    &&& image@.subrange(0, CODE_FILE_OFFSET as int) == elf_prefix(
                        image@.len() - CODE_FILE_OFFSET,
                        TAPE_LENGTH + INPUT_BUFFER_SIZE + OUTPUT_BUFFER_SIZE,
                    )
                    &&& image@.subrange(
                        CODE_FILE_OFFSET as int,
                        CODE_FILE_OFFSET + 52,
                    ) == prologue_code()
                    &&& image@.subrange(image@.len() - 89, image@.len() as int)
                        == guarded_flush_code() + exit_code(0)
                    &&& image@.subrange(image@.len() - 10, image@.len() as int) == exit_code(0)
                },
                Err(e) => {
                    &&& e is Syntax
                    &&& bracket_scan(s, p0, Seq::empty()) is Offending
                    &&& ({
                        let err = e->Syntax_0;
                        let idx = bracket_scan(s, p0, Seq::empty())->Offending_0;
                        &&& 0 <= idx < s.len()
                        &&& (s[idx] == OP_LOOP_START || s[idx] == OP_LOOP_END)
                        &&& err.line == line_of(s, idx)
                        &&& err.column == col_of(s, idx)
                        &&& err.message@ == (if s[idx] == OP_LOOP_END {
                            "unmatched ]"@
                        } else {
                            "unmatched ["@
                        })
                    })
                },
            }
        }),
{
    let mut cursor = stream;
    let ghost s = cursor.src();
    let ghost p0 = cursor.pos();

    let mut assembler = ElfAssembler::new();

    let tape = assembler.allocate_memory(TAPE_LENGTH);
    let input_buffer = assembler.allocate_memory(INPUT_BUFFER_SIZE);
    let output_buffer = assembler.allocate_memory(OUTPUT_BUFFER_SIZE);

    assembler.mov_rbx_addr(tape);
    assembler.mov_r14_addr(input_buffer);
    assembler.mov_rsp_addr(output_buffer);
    assembler.xor_r8_r8();
    assembler.mov_r9_u64(TAPE_LENGTH);
    assembler.xor_r10_r10();
    assembler.xor_r12_r12();
    assembler.xor_r13_r13();

    let mut loop_stack: Vec<Frame> = Vec::new();

    proof {
        lemma_le_widths();
        assert(assembler@.code =~= prologue_code());
        assert(assembler@.code.subrange(0, 52) =~= prologue_code());
        assert(stack_indices(loop_stack@) =~= Seq::<int>::empty());
        assert(window_sites(loop_stack@) =~= Seq::<int>::empty());
    }

    loop
        invariant
            s == stream.src(),
            p0 == stream.pos(),
            cursor.wf(),
            cursor.src() == s,
            token_count(s, p0) <= MAX_SOURCE_TOKENS,
            0 <= p0 <= cursor.pos() <= s.len(),
            assembler@.wf(),
            assembler@.alloc == BSS_VIRTUAL_ADDRESS + TAPE_LENGTH + INPUT_BUFFER_SIZE
                + OUTPUT_BUFFER_SIZE,
            52 <= assembler@.code.len(),
            assembler@.code.len() + token_count(s, cursor.pos()) * (MAX_CODE_PER_TOKEN as int)
                <= 52 + token_count(s, p0) * (MAX_CODE_PER_TOKEN as int),
            assembler@.code.subrange(0, 52) == prologue_code(),
            forall|l: int, sx: int| #[trigger] assembler@.pending_site(l, sx) ==> sx >= 52,
            stack_ok(assembler@, loop_stack@, s),
            bracket_scan(s, p0, Seq::empty()) == bracket_scan(
                s,
                cursor.pos(),
                stack_indices(loop_stack@),
            ),
            gen_from(s, p0, prologue_code(), Seq::empty()) == gen_from(
                s,
                cursor.pos(),
                assembler@.code,
                window_sites(loop_stack@),
            ),
        ensures
            cursor.pos() == s.len(),
            loop_stack@.len() == 0,
            bracket_scan(s, p0, Seq::empty()) is Balanced,
            assembler@.wf(),
            assembler@.all_resolved(),
            assembler@.alloc == BSS_VIRTUAL_ADDRESS + TAPE_LENGTH + INPUT_BUFFER_SIZE
                + OUTPUT_BUFFER_SIZE,
            52 <= assembler@.code.len(),
            assembler@.code.len() <= 52 + token_count(s, p0) * (MAX_CODE_PER_TOKEN as int),
            assembler@.code.subrange(0, 52) == prologue_code(),
            gen_from(s, p0, prologue_code(), Seq::empty()) == assembler@.code
                + guarded_flush_code() + exit_code(0),
        decreases s.len() - cursor.pos(),
    {
        let ghost prev = cursor.pos();
        let ghost stk = stack_indices(loop_stack@);
        let ghost wsk = window_sites(loop_stack@);
        let ghost frames0 = loop_stack@;
        let ghost pre_asm = assembler@;
        let (token, line, column) = parse(&mut cursor);
        let ghost j = next_op(s, prev);
        proof {
            lemma_next_op(s, prev);
        }
        match token {
            Token::Move(shift) => {
                emit_move(&mut assembler, shift);
                proof {
                    assert(s[j] == OP_SHIFT_RIGHT || s[j]
                        == OP_SHIFT_LEFT);
                    lemma_move_run(s, j + 1);
                    lemma_move_end(s, j + 1);
                    assert forall|k: int| prev <= k < cursor.pos() implies s[k]
                        != OP_LOOP_START && s[k] != OP_LOOP_END by {
                        if k < j {
                            assert(!is_op(s[k]));
                        }
                    }
                    lemma_scan_skip(s, prev, cursor.pos(), stk);
                    assert(shift as int == move_delta(s, j));
                    assert(gen_from(s, prev, pre_asm.code, wsk) == gen_from(
                        s,
                        cursor.pos(),
                        assembler@.code,
                        wsk,
                    ));
                    assert(token_count(s, prev) == 1 + token_count(s, cursor.pos()));
                    lemma_advanced_pending(pre_asm, assembler@, 17);
                    lemma_stack_ok_preserved(pre_asm, assembler@, loop_stack@, s);
                    lemma_prefix_subrange(assembler@.code, pre_asm.code, 0, 52);
                }
            },
            Token::Add(value) => {
                emit_add(&mut assembler, value);
                proof {
                    assert(s[j] == OP_INCREMENT || s[j]
                        == OP_DECREMENT);
                    lemma_add_run(s, j + 1);
                    lemma_add_end(s, j + 1);
                    assert forall|k: int| prev <= k < cursor.pos() implies s[k]
                        != OP_LOOP_START && s[k] != OP_LOOP_END by {
                        if k < j {
                            assert(!is_op(s[k]));
                        }
                    }
                    lemma_scan_skip(s, prev, cursor.pos(), stk);
                    assert(value as int == add_delta(s, j));
                    assert(gen_from(s, prev, pre_asm.code, wsk) == gen_from(
                        s,
                        cursor.pos(),
                        assembler@.code,
                        wsk,
                    ));
                    assert(token_count(s, prev) == 1 + token_count(s, cursor.pos()));
                    lemma_advanced_pending(pre_asm, assembler@, 5);
                    lemma_stack_ok_preserved(pre_asm, assembler@, loop_stack@, s);
                    lemma_prefix_subrange(assembler@.code, pre_asm.code, 0, 52);
                }
            },
            Token::ReadChar => {
                emit_read(&mut assembler);
                proof {
                    assert(s[j] == OP_READ);
                    assert forall|k: int| prev <= k < cursor.pos() implies s[k]
                        != OP_LOOP_START && s[k] != OP_LOOP_END by {
                        if k < j {
                            assert(!is_op(s[k]));
                        }
                    }
                    lemma_scan_skip(s, prev, cursor.pos(), stk);
                    assert(gen_from(s, prev, pre_asm.code, wsk) == gen_from(
                        s,
                        cursor.pos(),
                        assembler@.code,
                        wsk,
                    ));
                    assert(token_count(s, prev) == 1 + token_count(s, cursor.pos()));
                    lemma_advanced_pending(pre_asm, assembler@, 145);
                    lemma_stack_ok_preserved(pre_asm, assembler@, loop_stack@, s);
                    lemma_prefix_subrange(assembler@.code, pre_asm.code, 0, 52);
                }
            },
            Token::WriteChar => {
                emit_write(&mut assembler);
                proof {
                    assert(s[j] == OP_WRITE);
                    assert forall|k: int| prev <= k < cursor.pos() implies s[k]
                        != OP_LOOP_START && s[k] != OP_LOOP_END by {
                        if k < j {
                            assert(!is_op(s[k]));
                        }
                    }
                    lemma_scan_skip(s, prev, cursor.pos(), stk);
                    assert(gen_from(s, prev, pre_asm.code, wsk) == gen_from(
                        s,
                        cursor.pos(),
                        assembler@.code,
                        wsk,
                    ));
                    assert(token_count(s, prev) == 1 + token_count(s, cursor.pos()));
                    lemma_advanced_pending(pre_asm, assembler@, 100);
                    lemma_stack_ok_preserved(pre_asm, assembler@, loop_stack@, s);
                    lemma_prefix_subrange(assembler@.code, pre_asm.code, 0, 52);
                }
            },
            Token::LoopStart => {
                let start_label = assembler.allocate_label();
                let end_label = assembler.allocate_label();
                assembler.cmp_byte_ptr_rbx_plus_r8_u8(0);
                let ghost v1 = assembler@;
                let ghost site = v1.code.len() + 2int;
                assembler.je(end_label);
                let ghost v2 = assembler@;
                assembler.label(start_label);
                loop_stack.push(Frame {
                    start: start_label,
                    end: end_label,
                    line,
                    column,
                    at: Ghost(j),
                    site: Ghost(site),
                });
                proof {
                    assert(s[j] == OP_LOOP_START);
                    let post = assembler@;
                    assert(v2.labels[start_label as int] == LabelView::Pending(
                        Seq::<int>::empty(),
                    ));
                    assert(v2.labels[end_label as int] == LabelView::Pending(
                        Seq::<int>::empty().push(site),
                    ));
                    // the head label owed no patches, so defining it
                    // rewrites nothing
                    assert forall|i: int| 0 <= i < v2.code.len() implies post.code[i]
                        == v2.code[i] by {
                        if post.code[i] != v2.code[i] {
                            let sx = choose|sx: int|
                                v2.pending_site(start_label as int, sx) && sx <= i < sx + 4;
                            assert(!Seq::<int>::empty().contains(sx));
                        }
                    }
                    assert forall|i: int| 0 <= i < pre_asm.code.len() implies post.code[i]
                        == pre_asm.code[i] by {
                        assert(v1.code[i] == pre_asm.code[i]);
                        assert(v2.code[i] == v1.code[i]);
                    }
                    assert(post.code.subrange(0, 52) =~= pre_asm.code.subrange(0, 52));
                    // pending windows stay past the prologue
                    assert forall|l: int, sx: int| #[trigger] post.pending_site(l, sx)
                        implies sx >= 52 by {
                        if l < pre_asm.labels.len() {
                            assert(post.labels[l] == pre_asm.labels[l]);
                            assert(pre_asm.pending_site(l, sx));
                        } else if l == start_label as int {
                            assert(!Seq::<int>::empty().contains(sx));
                        } else {
                            assert(l == end_label as int);
                            assert(Seq::<int>::empty().push(site).contains(sx));
                            assert(Seq::<int>::empty().push(site)[0] == site);
                        }
                    }
                    // the new frame joins a sound stack
                    let f = Frame {
                        start: start_label,
                        end: end_label,
                        line,
                        column,
                        at: Ghost(j),
                        site: Ghost(site),
                    };
                    assert(loop_stack@ =~= frames0.push(f));
                    assert forall|k: int| 0 <= k < loop_stack@.len() implies frame_ok(
                        post,
                        #[trigger] loop_stack@[k],
                        s,
                    ) by {
                        if k < loop_stack@.len() - 1 {
                            let g = loop_stack@[k];
                            assert(g == frames0[k]);
                            assert(frame_ok(pre_asm, g, s));
                            assert(post.labels[g.start as int] == pre_asm.labels[
                                g.start as int]);
                            assert(post.labels[g.end as int] == pre_asm.labels[g.end as int]);
                        } else {
                            assert(loop_stack@[k] == f);
                            assert(line == line_of(s, j));
                            assert(column == col_of(s, j));
                            assert(post.labels[f.start as int] == LabelView::Resolved(
                                v2.code.len() as int,
                            ));
                            assert(v2.code.len() == site + 4);
                        }
                    }
                    assert forall|k1: int, k2: int|
                        0 <= k1 < k2 < loop_stack@.len() implies (
                        #[trigger] loop_stack@[k1]).end != (#[trigger] loop_stack@[k2]).end
                    by {
                        if k2 == loop_stack@.len() - 1 {
                            let g = loop_stack@[k1];
                            assert(g == frames0[k1]);
                            assert(frame_ok(pre_asm, g, s));
                            assert((g.end as int) < pre_asm.labels.len());
                        } else {
                            assert(loop_stack@[k1] == frames0[k1]);
                            assert(loop_stack@[k2] == frames0[k2]);
                        }
                    }
                    assert forall|l: int|
                        0 <= l < post.labels.len() && (#[trigger] post.labels[l]) is Pending
                        implies exists|k: int|
                        0 <= k < loop_stack@.len() && (#[trigger] loop_stack@[k]).end == l
                    by {
                        if l < pre_asm.labels.len() {
                            assert(post.labels[l] == pre_asm.labels[l]);
                            assert(pre_asm.labels[l] is Pending);
                            let k = choose|k: int|
                                0 <= k < frames0.len() && (#[trigger] frames0[k]).end == l;
                            assert(loop_stack@[k] == frames0[k]);
                            assert(loop_stack@[k].end == l);
                        } else if l == start_label as int {
                            assert(post.labels[l] is Resolved);
                        } else {
                            assert(l == end_label as int);
                            assert(loop_stack@[loop_stack@.len() - 1].end == l);
                        }
                    }
                    // the scan pushes this bracket
                    lemma_scan_skip(s, prev, j, stk);
                    assert(bracket_scan(s, j, stk) == bracket_scan(s, j + 1, stk.push(j)));
                    assert(stack_indices(loop_stack@) =~= stk.push(j));
                    assert(cursor.pos() == j + 1);
                    // the generator records the same loop head
                    assert(post.code =~= pre_asm.code + loop_head_code());
                    assert(site == pre_asm.code.len() + 7);
                    assert(window_sites(loop_stack@) =~= wsk.push(pre_asm.code.len() + 7int));
                    assert(gen_from(s, prev, pre_asm.code, wsk) == gen_from(
                        s,
                        cursor.pos(),
                        post.code,
                        window_sites(loop_stack@),
                    ));
                    assert(token_count(s, prev) == 1 + token_count(s, cursor.pos()));
                }
            },
            Token::LoopEnd => {
                proof {
                    assert(s[j] == OP_LOOP_END);
                    lemma_scan_skip(s, prev, j, stk);
                }
                if loop_stack.len() == 0 {
                    proof {
                        assert(stk =~= Seq::<int>::empty());
                        assert(bracket_scan(s, j, stk) == BracketOutcome::Offending(j));
                        assert(line == line_of(s, j));
                        assert(column == col_of(s, j));
                    }
                    return Err(ParseError::Syntax(SyntaxError::new(
                        line,
                        column,
                        "unmatched ]",
                    )));
                }
                let frame = match loop_stack.pop() {
                    Some(f) => f,
                    None => {
                        proof {
                            assert(false);
                        }
                        Frame {
                            start: 0,
                            end: 0,
                            line: 1,
                            column: 1,
                            at: Ghost(0int),
                            site: Ghost(0int),
                        }
                    },
                };
                assembler.cmp_byte_ptr_rbx_plus_r8_u8(0);
                let ghost v1 = assembler@;
                assembler.jne(frame.start);
                let ghost v2 = assembler@;
                assembler.label(frame.end);
                proof {
                    let post = assembler@;
                    assert(frames0 =~= loop_stack@.push(frame));
                    assert(frame == frames0[frames0.len() - 1]);
                    assert(frame_ok(pre_asm, frame, s));
                    assert(v1.labels =~~= pre_asm.labels);
                    assert(v2.labels =~~= pre_asm.labels);
                    // patching the end label rewrites only windows past
                    // the prologue
                    assert forall|i: int| 0 <= i < 52 implies post.code[i] == v2.code[i] by {
                        if post.code[i] != v2.code[i] {
                            let sx = choose|sx: int|
                                v2.pending_site(frame.end as int, sx) && sx <= i < sx + 4;
                            assert(pre_asm.pending_site(frame.end as int, sx));
                        }
                    }
                    assert forall|i: int| 0 <= i < 52 implies post.code[i]
                        == pre_asm.code[i] by {
                        assert(v1.code[i] == pre_asm.code[i]);
                        assert(v2.code[i] == v1.code[i]);
                    }
                    assert(post.code.subrange(0, 52) =~= pre_asm.code.subrange(0, 52));
                    // pending windows stay past the prologue
                    assert forall|l: int, sx: int| #[trigger] post.pending_site(l, sx)
                        implies sx >= 52 by {
                        assert(post.labels == pre_asm.labels.update(
                            frame.end as int,
                            LabelView::Resolved(v2.code.len() as int),
                        ));
                        assert(l != frame.end as int);
                        assert(post.labels[l] == pre_asm.labels[l]);
                        assert(pre_asm.pending_site(l, sx));
                    }
                    // the remaining stack is sound
                    assert forall|k: int| 0 <= k < loop_stack@.len() implies frame_ok(
                        post,
                        #[trigger] loop_stack@[k],
                        s,
                    ) by {
                        assert(frames0[k] == loop_stack@[k]);
                        assert(frame_ok(pre_asm, frames0[k], s));
                        assert(frames0[loop_stack@.len() as int] == frame);
                        assert(loop_stack@[k].end != frame.end);
                        assert(post.labels[loop_stack@[k].end as int] == pre_asm.labels[
                            loop_stack@[k].end as int]);
                        assert(post.labels[loop_stack@[k].start as int] == pre_asm.labels[
                            loop_stack@[k].start as int]);
                    }
                    assert forall|k1: int, k2: int|
                        0 <= k1 < k2 < loop_stack@.len() implies (
                        #[trigger] loop_stack@[k1]).end != (#[trigger] loop_stack@[k2]).end
                    by {
                        assert(frames0[k1] == loop_stack@[k1]);
                        assert(frames0[k2] == loop_stack@[k2]);
                    }
                    assert forall|l: int|
                        0 <= l < post.labels.len() && (#[trigger] post.labels[l]) is Pending
                        implies exists|k: int|
                        0 <= k < loop_stack@.len() && (#[trigger] loop_stack@[k]).end == l
                    by {
                        assert(l != frame.end as int);
                        assert(pre_asm.labels[l] is Pending);
                        let k = choose|k: int|
                            0 <= k < frames0.len() && (#[trigger] frames0[k]).end == l;
                        assert(k < loop_stack@.len());
                        assert(loop_stack@[k].end == l);
                    }
                    // the scan pops this bracket
                    assert(stk.len() == frames0.len());
                    assert(stk =~= stack_indices(loop_stack@).push(frame.at@));
                    assert(stk.last() == frame.at@);
                    assert(stk.drop_last() =~= stack_indices(loop_stack@));
                    assert(bracket_scan(s, j, stk) == bracket_scan(
                        s,
                        j + 1,
                        stk.drop_last(),
                    ));
                    assert(cursor.pos() == j + 1);
                    // the generator closes the same loop
                    let site = frame.site@;
                    assert(wsk.len() == frames0.len());
                    assert(wsk[wsk.len() - 1] == frames0[frames0.len() - 1].site@);
                    assert(wsk.last() == site);
                    assert(wsk.drop_last() =~= window_sites(loop_stack@));
                    let with_end = pre_asm.code + seq![0x42u8, 0x80u8, 0x3cu8, 0x03u8, 0x00u8]
                        + seq![0x0fu8, 0x85u8] + i32_le((site + 4) - (pre_asm.code.len() + 11));
                    assert(v2.code =~= with_end);
                    // the end label's one window is patched to just past here
                    assert(Seq::<int>::empty().push(site)[0] == site);
                    assert(Seq::<int>::empty().push(site).contains(site));
                    assert(v2.pending_site(frame.end as int, site));
                    assert(post.code.subrange(site, site + 4) == u32_le(
                        v2.code.len() - (site + 4),
                    ));
                    assert forall|i: int| 0 <= i < v2.code.len() && !(site <= i < site + 4)
                        implies post.code[i] == v2.code[i] by {
                        if post.code[i] != v2.code[i] {
                            let sx = choose|sx: int|
                                v2.pending_site(frame.end as int, sx) && sx <= i < sx + 4;
                            assert(sx == site);
                        }
                    }
                    assert(pre_asm.label_entry_ok(frame.end as int));
                    assert(pre_asm.placeholder_ok(site));
                    assert(post.code =~= splice4(with_end, site, u32_le(
                        with_end.len() - (site + 4),
                    ))) by {
                        assert forall|i: int| 0 <= i < post.code.len() implies post.code[i]
                            == splice4(with_end, site, u32_le(with_end.len() - (site + 4)))[i]
                        by {
                            if i < site {
                                assert(post.code[i] == v2.code[i]);
                                assert(with_end.take(site)[i] == with_end[i]);
                            } else if i < site + 4 {
                                assert(post.code[i] == post.code.subrange(site, site + 4)[i
                                    - site]);
                            } else {
                                assert(post.code[i] == v2.code[i]);
                                assert(with_end.skip(site + 4)[i - site - 4] == with_end[i]);
                            }
                        }
                    }
                    assert(post.code == close_loop(pre_asm.code, wsk.last()));
                    assert(gen_from(s, prev, pre_asm.code, wsk) == gen_from(
                        s,
                        cursor.pos(),
                        post.code,
                        window_sites(loop_stack@),
                    ));
                    assert(token_count(s, prev) == 1 + token_count(s, cursor.pos()));
                }
            },
            Token::EndOfFile => {
                proof {
                    assert(j == s.len());
                    lemma_scan_skip(s, prev, j, stk);
                }
                if loop_stack.len() > 0 {
                    let frame = loop_stack[loop_stack.len() - 1];
                    proof {
                        assert(frame_ok(assembler@, frame, s));
                        assert(stk.len() == loop_stack@.len());
                        assert(stk[stk.len() - 1] == loop_stack@[loop_stack@.len() - 1].at@);
                        assert(stk.last() == frame.at@);
                        assert(bracket_scan(s, s.len() as int, stk)
                            == BracketOutcome::Offending(frame.at@));
                    }
                    return Err(ParseError::Syntax(SyntaxError::new(
                        frame.line,
                        frame.column,
                        "unmatched [",
                    )));
                }
                proof {
                    assert(stk =~= Seq::<int>::empty());
                    assert(bracket_scan(s, s.len() as int, stk) is Balanced);
                    assert(gen_from(s, prev, pre_asm.code, wsk) == pre_asm.code
                        + guarded_flush_code() + exit_code(0));
                    assert forall|l: int|
                        0 <= l < assembler@.labels.len() implies (
                        #[trigger] assembler@.labels[l]) is Resolved by {
                        if assembler@.labels[l] is Pending {
                            let k = choose|k: int|
                                0 <= k < loop_stack@.len() && (#[trigger] loop_stack@[k]).end
                                    == l;
                        }
                    }
                }
                break;
            },
        }
    }

    proof {
        lemma_le_widths();
    }
    let ghost before_epilogue = assembler@;
    emit_guarded_flush(&mut assembler);
    let ghost after_flush = assembler@;
    emit_exit(&mut assembler, 0);
    proof {
        let v = assembler@;
        lemma_advanced_pending(before_epilogue, after_flush, 79);
        assert forall|l: int| 0 <= l < v.labels.len() implies (#[trigger] v.labels[l])
            is Resolved by {
            if l < after_flush.labels.len() {
                if l < before_epilogue.labels.len() {
                    assert(after_flush.labels[l] == before_epilogue.labels[l]);
                }
            }
        }
        lemma_prefix_subrange(after_flush.code, before_epilogue.code, 0, 52);
        assert(v.code.subrange(0, after_flush.code.len() as int) =~= after_flush.code);
        lemma_prefix_subrange(v.code, after_flush.code, 0, 52);
        assert(v.code =~= before_epilogue.code + guarded_flush_code() + exit_code(0));
        assert(v.code == gen_from(s, p0, prologue_code(), Seq::empty()));
        assert(v.code.subrange(v.code.len() - 10, v.code.len() as int) =~= exit_code(0));
        assert(v.code.subrange(v.code.len() - 89, v.code.len() as int)
            =~= guarded_flush_code() + exit_code(0));
    }
    let ghost final_view = assembler@;
    let image = assembler.assemble();
    proof {
        let bss = TAPE_LENGTH + INPUT_BUFFER_SIZE + OUTPUT_BUFFER_SIZE;
        assert(final_view.code == gen_from(s, p0, prologue_code(), Seq::empty()));
        lemma_elf_prefix_len(final_view.code.len() as int, bss as int);
        assert(image@.subrange(0, CODE_FILE_OFFSET as int) =~= elf_prefix(
            final_view.code.len() as int,
            bss as int,
        ));
        assert(image@.subrange(CODE_FILE_OFFSET as int, CODE_FILE_OFFSET + 52)
            =~= final_view.code.subrange(0, 52));
        assert(image@.subrange(image@.len() - 10, image@.len() as int)
            =~= final_view.code.subrange(
            final_view.code.len() - 10,
            final_view.code.len() as int,
        ));
        assert(image@.subrange(image@.len() - 89, image@.len() as int)
            =~= final_view.code.subrange(
            final_view.code.len() - 89,
            final_view.code.len() as int,
        ));
    }
    Ok(image)
}

} // verus!
