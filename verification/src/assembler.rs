//! The assembler interface: one operation per abstract machine
//! instruction — arithmetic on fixed register roles, compares,
//! conditional and unconditional branches, syscalls, memory-address
//! loads — plus allocation of zero-fill memory and branch-target labels,
//! and the finalize step producing the ELF image.
//!
//! Contracts are stated over the implementation-independent state
//! [`AsmView`]: each instruction method appends its fixed encoding to the
//! code; branches go through the label table as [`branch_result`]
//! describes; the invariant [`AsmView::wf`] is preserved throughout.

use vstd::prelude::*;

use crate::bytes::{u32_le, u64_le, i32_le, decode_i32};
use crate::elf::{BSS_VIRTUAL_ADDRESS, MAX_VIRTUAL_ADDRESS, MAX_TEXT_SIZE, CODE_FILE_OFFSET,
    elf_image};
use crate::elf_assembler::{AsmView, LabelView, Label, Address, appended, branch_result,
    label_offset};

verus! {

/// An assembler: its view is the emitted code, the label table, the
/// allocation pointer and the record of emitted branches.
pub trait Assembler: Sized + View<V = AsmView> {
    /// Carves `size` zero-initialized bytes out of the zero-fill segment
    /// and returns their virtual address.  Allocation is monotonic:
    /// regions are disjoint by construction and never freed.
    fn allocate_memory(&mut self, size: u64) -> (r: Address)
        requires
            old(self)@.wf(),
            old(self)@.alloc + size <= MAX_VIRTUAL_ADDRESS + 1,
        ensures
            final(self)@.wf(),
            r == old(self)@.alloc,
            final(self)@.alloc == old(self)@.alloc + size,
            final(self)@.code == old(self)@.code,
            final(self)@.labels == old(self)@.labels,
            final(self)@.branches == old(self)@.branches,
    ;

    /// A new label in the pending state, owing no patches yet.
    fn allocate_label(&mut self) -> (r: Label)
        requires
            old(self)@.wf(),
        ensures
            final(self)@.wf(),
            r == old(self)@.labels.len(),
            final(self)@.labels == old(self)@.labels.push(LabelView::Pending(Seq::empty())),
            final(self)@.code == old(self)@.code,
            final(self)@.branches == old(self)@.branches,
            final(self)@.alloc == old(self)@.alloc,
    ;

    /// Defines `label` at the current end of the code, transitioning it
    /// from pending to resolved, and back-patches every placeholder
    /// window recorded for it.  A label may be defined only while
    /// pending, so at most once.
    fn label(&mut self, label: Label)
        requires
            old(self)@.wf(),
            label < old(self)@.labels.len(),
            old(self)@.labels[label as int] is Pending,
            old(self)@.code.len() <= 0x7fff_ffff,
        ensures
            final(self)@.wf(),
            final(self)@.labels == old(self)@.labels.update(
                label as int,
                LabelView::Resolved(old(self)@.code.len() as int),
            ),
            final(self)@.code.len() == old(self)@.code.len(),
            final(self)@.branches == old(self)@.branches,
            final(self)@.alloc == old(self)@.alloc,
            forall|i: int|
                0 <= i < old(self)@.code.len() && final(self)@.code[i] != old(self)@.code[i]
                    ==> exists|s: int|
                    old(self)@.pending_site(label as int, s) && s <= i < s + 4,
            forall|s: int|
                #[trigger] old(self)@.pending_site(label as int, s)
                    ==> final(self)@.code.subrange(s, s + 4) == u32_le(
                    old(self)@.code.len() - (s + 4),
                ),
    ;

    /// `je`: branch if equal.
    fn je(&mut self, label: Label)
        requires
            old(self)@.wf(),
            label < old(self)@.labels.len(),
            old(self)@.code.len() + 10 <= 0x7fff_ffff,
        ensures
            final(self)@.wf(),
            branch_result(old(self)@, final(self)@, label as int, seq![0x0fu8, 0x84u8]),
            final(self)@.code.len() == old(self)@.code.len() + 6,
    ;

    /// `jg`: branch if greater (signed).
    fn jg(&mut self, label: Label)
        requires
            old(self)@.wf(),
            label < old(self)@.labels.len(),
            old(self)@.code.len() + 10 <= 0x7fff_ffff,
        ensures
            final(self)@.wf(),
            branch_result(old(self)@, final(self)@, label as int, seq![0x0fu8, 0x8fu8]),
            final(self)@.code.len() == old(self)@.code.len() + 6,
    ;

    /// `jne`: branch if not equal.
    fn jne(&mut self, label: Label)
        requires
            old(self)@.wf(),
            label < old(self)@.labels.len(),
            old(self)@.code.len() + 10 <= 0x7fff_ffff,
        ensures
            final(self)@.wf(),
            branch_result(old(self)@, final(self)@, label as int, seq![0x0fu8, 0x85u8]),
            final(self)@.code.len() == old(self)@.code.len() + 6,
    ;

    /// `jns`: branch if the sign flag is clear.
    fn jns(&mut self, label: Label)
        requires
            old(self)@.wf(),
            label < old(self)@.labels.len(),
            old(self)@.code.len() + 10 <= 0x7fff_ffff,
        ensures
            final(self)@.wf(),
            branch_result(old(self)@, final(self)@, label as int, seq![0x0fu8, 0x89u8]),
            final(self)@.code.len() == old(self)@.code.len() + 6,
    ;

    /// `add r15, rax`.
    fn add_r15_rax(&mut self)
        requires
            old(self)@.wf(),
        ensures
            final(self)@.wf(),
            appended(old(self)@, final(self)@, seq![0x49u8, 0x01u8, 0xc7u8]),
    ;

    /// `add r8, r9`.
    fn add_r8_r9(&mut self)
        requires
            old(self)@.wf(),
        ensures
            final(self)@.wf(),
            appended(old(self)@, final(self)@, seq![0x4du8, 0x01u8, 0xc8u8]),
    ;

    /// `add rsi, r15`.
    fn add_rsi_r15(&mut self)
        requires
            old(self)@.wf(),
        ensures
            final(self)@.wf(),
            appended(old(self)@, final(self)@, seq![0x4cu8, 0x01u8, 0xfeu8]),
    ;

    /// `cmovae r8, r15`: copy if above or equal (unsigned).
    fn cmovae_r8_r15(&mut self)
        requires
            old(self)@.wf(),
        ensures
            final(self)@.wf(),
            appended(old(self)@, final(self)@, seq![0x4du8, 0x0fu8, 0x43u8, 0xc7u8]),
    ;

    /// `cmp r10, r12`.
    fn cmp_r10_r12(&mut self)
        requires
            old(self)@.wf(),
        ensures
            final(self)@.wf(),
            appended(old(self)@, final(self)@, seq![0x4du8, 0x39u8, 0xe2u8]),
    ;

    /// `cmp r15, r13`.
    fn cmp_r15_r13(&mut self)
        requires
            old(self)@.wf(),
        ensures
            final(self)@.wf(),
            appended(old(self)@, final(self)@, seq![0x4du8, 0x39u8, 0xefu8]),
    ;

    /// `dec byte [rbx + r8]`: wrapping 8-bit decrement of the current cell.
    fn dec_byte_ptr_rbx_plus_r8(&mut self)
        requires
            old(self)@.wf(),
        ensures
            final(self)@.wf(),
            appended(old(self)@, final(self)@, seq![0x42u8, 0xfeu8, 0x0cu8, 0x03u8]),
    ;

    /// `inc byte [rbx + r8]`: wrapping 8-bit increment of the current cell.
    fn inc_byte_ptr_rbx_plus_r8(&mut self)
        requires
            old(self)@.wf(),
        ensures
            final(self)@.wf(),
            appended(old(self)@, final(self)@, seq![0x42u8, 0xfeu8, 0x04u8, 0x03u8]),
    ;

    /// `inc r10`.
    fn inc_r10(&mut self)
        requires
            old(self)@.wf(),
        ensures
            final(self)@.wf(),
            appended(old(self)@, final(self)@, seq![0x49u8, 0xffu8, 0xc2u8]),
    ;

    /// `inc r13`.
    fn inc_r13(&mut self)
        requires
            old(self)@.wf(),
        ensures
            final(self)@.wf(),
            appended(old(self)@, final(self)@, seq![0x49u8, 0xffu8, 0xc5u8]),
    ;

    /// `mov byte [rbx + r8], r15b`.
    fn mov_byte_ptr_rbx_plus_r8_r15b(&mut self)
        requires
            old(self)@.wf(),
        ensures
            final(self)@.wf(),
            appended(old(self)@, final(self)@, seq![0x46u8, 0x88u8, 0x3cu8, 0x03u8]),
    ;

    /// `mov byte [rsp + r13], r15b`.
    fn mov_byte_ptr_rsp_plus_r13_r15b(&mut self)
        requires
            old(self)@.wf(),
        ensures
            final(self)@.wf(),
            appended(old(self)@, final(self)@, seq![0x46u8, 0x88u8, 0x3cu8, 0x2cu8]),
    ;

    /// `mov r12, rax`.
    fn mov_r12_rax(&mut self)
        requires
            old(self)@.wf(),
        ensures
            final(self)@.wf(),
            appended(old(self)@, final(self)@, seq![0x49u8, 0x89u8, 0xc4u8]),
    ;

    /// `mov r15b, byte [r14 + r10]`.
    fn mov_r15b_byte_ptr_r14_plus_r10(&mut self)
        requires
            old(self)@.wf(),
        ensures
            final(self)@.wf(),
            appended(old(self)@, final(self)@, seq![0x47u8, 0x8au8, 0x3cu8, 0x16u8]),
    ;

    /// `mov r15b, byte [rbx + r8]`.
    fn mov_r15b_byte_ptr_rbx_plus_r8(&mut self)
        requires
            old(self)@.wf(),
        ensures
            final(self)@.wf(),
            appended(old(self)@, final(self)@, seq![0x46u8, 0x8au8, 0x3cu8, 0x03u8]),
    ;

    /// `mov r15, r8`.
    fn mov_r15_r8(&mut self)
        requires
            old(self)@.wf(),
        ensures
            final(self)@.wf(),
            appended(old(self)@, final(self)@, seq![0x4du8, 0x89u8, 0xc7u8]),
    ;

    /// `mov rdx, r13`.
    fn mov_rdx_r13(&mut self)
        requires
            old(self)@.wf(),
        ensures
            final(self)@.wf(),
            appended(old(self)@, final(self)@, seq![0x4cu8, 0x89u8, 0xeau8]),
    ;

    /// `mov rsi, r14`.
    fn mov_rsi_r14(&mut self)
        requires
            old(self)@.wf(),
        ensures
            final(self)@.wf(),
            appended(old(self)@, final(self)@, seq![0x4cu8, 0x89u8, 0xf6u8]),
    ;

    /// `mov rsi, rsp`.
    fn mov_rsi_rsp(&mut self)
        requires
            old(self)@.wf(),
        ensures
            final(self)@.wf(),
            appended(old(self)@, final(self)@, seq![0x48u8, 0x89u8, 0xe6u8]),
    ;

    /// `sub r15, r9`.
    fn sub_r15_r9(&mut self)
        requires
            old(self)@.wf(),
        ensures
            final(self)@.wf(),
            appended(old(self)@, final(self)@, seq![0x4du8, 0x29u8, 0xcfu8]),
    ;

    /// `sub rdx, r15`.
    fn sub_rdx_r15(&mut self)
        requires
            old(self)@.wf(),
        ensures
            final(self)@.wf(),
            appended(old(self)@, final(self)@, seq![0x4cu8, 0x29u8, 0xfau8]),
    ;

    /// `syscall`.
    fn syscall(&mut self)
        requires
            old(self)@.wf(),
        ensures
            final(self)@.wf(),
            appended(old(self)@, final(self)@, seq![0x0fu8, 0x05u8]),
    ;

    /// `xor r10, r10`: zero r10.
    fn xor_r10_r10(&mut self)
        requires
            old(self)@.wf(),
        ensures
            final(self)@.wf(),
            appended(old(self)@, final(self)@, seq![0x4du8, 0x31u8, 0xd2u8]),
    ;

    /// `xor r12, r12`: zero r12.
    fn xor_r12_r12(&mut self)
        requires
            old(self)@.wf(),
        ensures
            final(self)@.wf(),
            appended(old(self)@, final(self)@, seq![0x4du8, 0x31u8, 0xe4u8]),
    ;

    /// `xor r13, r13`: zero r13.
    fn xor_r13_r13(&mut self)
        requires
            old(self)@.wf(),
        ensures
            final(self)@.wf(),
            appended(old(self)@, final(self)@, seq![0x4du8, 0x31u8, 0xedu8]),
    ;

    /// `xor r15, r15`: zero r15.
    fn xor_r15_r15(&mut self)
        requires
            old(self)@.wf(),
        ensures
            final(self)@.wf(),
            appended(old(self)@, final(self)@, seq![0x4du8, 0x31u8, 0xffu8]),
    ;

    /// `xor r8, r8`: zero r8.
    fn xor_r8_r8(&mut self)
        requires
            old(self)@.wf(),
        ensures
            final(self)@.wf(),
            appended(old(self)@, final(self)@, seq![0x4du8, 0x31u8, 0xc0u8]),
    ;

    /// `xor rax, rax`: zero rax.
    fn xor_rax_rax(&mut self)
        requires
            old(self)@.wf(),
        ensures
            final(self)@.wf(),
            appended(old(self)@, final(self)@, seq![0x48u8, 0x31u8, 0xc0u8]),
    ;

    /// `xor rdi, rdi`: zero rdi.
    fn xor_rdi_rdi(&mut self)
        requires
            old(self)@.wf(),
        ensures
            final(self)@.wf(),
            appended(old(self)@, final(self)@, seq![0x48u8, 0x31u8, 0xffu8]),
    ;

    /// `add byte [rbx + r8], imm8`: wrapping 8-bit add to the current cell.
    fn add_byte_ptr_rbx_plus_r8_u8(&mut self, operand: u8)
        requires
            old(self)@.wf(),
        ensures
            final(self)@.wf(),
            appended(old(self)@, final(self)@, seq![0x42u8, 0x80u8, 0x04u8, 0x03u8, operand]),
    ;

    /// `cmp byte [rbx + r8], imm8`.
    fn cmp_byte_ptr_rbx_plus_r8_u8(&mut self, operand: u8)
        requires
            old(self)@.wf(),
        ensures
            final(self)@.wf(),
            appended(old(self)@, final(self)@, seq![0x42u8, 0x80u8, 0x3cu8, 0x03u8, operand]),
    ;

    /// `cmp r15b, imm8`.
    fn cmp_r15b_u8(&mut self, operand: u8)
        requires
            old(self)@.wf(),
        ensures
            final(self)@.wf(),
            appended(old(self)@, final(self)@, seq![0x41u8, 0x80u8, 0xffu8, operand]),
    ;

    /// `cmp r13, imm32`.
    fn cmp_r13_u32(&mut self, operand: u32)
        requires
            old(self)@.wf(),
        ensures
            final(self)@.wf(),
            appended(old(self)@, final(self)@, seq![0x49u8, 0x81u8, 0xfdu8] + u32_le(operand as int)),
    ;

    /// `cmp rax, imm32` (sign-extended).
    fn cmp_rax_u32(&mut self, operand: u32)
        requires
            old(self)@.wf(),
        ensures
            final(self)@.wf(),
            appended(old(self)@, final(self)@, seq![0x48u8, 0x3du8] + u32_le(operand as int)),
    ;

    /// `mov eax, imm32`.
    fn mov_rax_u32(&mut self, operand: u32)
        requires
            old(self)@.wf(),
        ensures
            final(self)@.wf(),
            appended(old(self)@, final(self)@, seq![0xb8u8] + u32_le(operand as int)),
    ;

    /// `mov edi, imm32`.
    fn mov_rdi_u32(&mut self, operand: u32)
        requires
            old(self)@.wf(),
        ensures
            final(self)@.wf(),
            appended(old(self)@, final(self)@, seq![0xbfu8] + u32_le(operand as int)),
    ;

    /// `mov edx, imm32`.
    fn mov_rdx_u32(&mut self, operand: u32)
        requires
            old(self)@.wf(),
        ensures
            final(self)@.wf(),
            appended(old(self)@, final(self)@, seq![0xbau8] + u32_le(operand as int)),
    ;

    /// `mov r9, imm64`.
    fn mov_r9_u64(&mut self, operand: u64)
        requires
            old(self)@.wf(),
        ensures
            final(self)@.wf(),
            appended(
                old(self)@,
                final(self)@,
                seq![0x49u8, 0xb9u8] + u64_le(operand as int),
            ),
    ;

    /// `mov rbx, imm64`: load a memory-region address.
    fn mov_rbx_addr(&mut self, address: Address)
        requires
            old(self)@.wf(),
        ensures
            final(self)@.wf(),
            appended(
                old(self)@,
                final(self)@,
                seq![0x48u8, 0xbbu8] + u64_le(address as int),
            ),
    ;

    /// `mov r14, imm64`: load a memory-region address.
    fn mov_r14_addr(&mut self, address: Address)
        requires
            old(self)@.wf(),
        ensures
            final(self)@.wf(),
            appended(
                old(self)@,
                final(self)@,
                seq![0x49u8, 0xbeu8] + u64_le(address as int),
            ),
    ;

    /// `mov rsp, imm64`: load a memory-region address.
    fn mov_rsp_addr(&mut self, address: Address)
        requires
            old(self)@.wf(),
        ensures
            final(self)@.wf(),
            appended(
                old(self)@,
                final(self)@,
                seq![0x48u8, 0xbcu8] + u64_le(address as int),
            ),
    ;

    /// `add r8, imm8` (sign-extended): shift the tape position by a
    /// small delta, updating the flags for the wraparound correction.
    fn add_r8_i8(&mut self, operand: i8)
        requires
            old(self)@.wf(),
        ensures
            final(self)@.wf(),
            appended(
                old(self)@,
                final(self)@,
                seq![0x49u8, 0x83u8, 0xc0u8] + seq![
                    (if operand < 0 {
                        operand + 256
                    } else {
                        operand as int
                    }) as u8,
                ],
            ),
    ;

    /// `add r8, imm32` (sign-extended): shift the tape position by a
    /// large delta, updating the flags for the wraparound correction.
    fn add_r8_i32(&mut self, operand: i32)
        requires
            old(self)@.wf(),
        ensures
            final(self)@.wf(),
            appended(
                old(self)@,
                final(self)@,
                seq![0x49u8, 0x81u8, 0xc0u8] + i32_le(operand as int),
            ),
    ;

    /// Finalizes assembly: stitches the ELF headers, the string table and
    /// the machine code into the complete image.  Every label must have
    /// been resolved and the code must fit below the zero-fill segment's
    /// base.  The result carries label-resolution soundness: every
    /// branch's displacement window in the image decodes to the offset of
    /// its label's definition.
    fn assemble(self) -> (r: Vec<u8>)
        requires
            self@.wf(),
            self@.all_resolved(),
            self@.code.len() <= MAX_TEXT_SIZE,
        ensures
            r@ == elf_image(self@.code, self@.alloc - BSS_VIRTUAL_ADDRESS),
            r@.len() == CODE_FILE_OFFSET + self@.code.len(),
            forall|i: int|
                0 <= i < self@.branches.len() ==> decode_i32(
                    r@.subrange(
                        CODE_FILE_OFFSET + (#[trigger] self@.branches[i]).site,
                        CODE_FILE_OFFSET + self@.branches[i].site + 4,
                    ),
                ) + self@.branches[i].site + 4 == label_offset(self@, self@.branches[i].label),
    ;
}

} // verus!
