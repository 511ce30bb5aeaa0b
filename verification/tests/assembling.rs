//! The assembler: encodings, label relocation, ELF layout.

use bfc::assembler::Assembler;
use bfc::bytes::push_le_bytes;
use bfc::elf_assembler::ElfAssembler;

/// File offset of the machine code inside the image.
const CODE_AT: usize = 0x1c6;

fn le32_at(image: &[u8], at: usize) -> i64 {
    let unsigned = image[at] as i64 + ((image[at + 1] as i64) << 8) + ((image[at + 2] as i64) << 16)
        + ((image[at + 3] as i64) << 24);
    if unsigned >= 0x8000_0000 {
        unsigned - 0x1_0000_0000
    } else {
        unsigned
    }
}

#[test]
fn push_le_bytes_little_endian() {
    let mut out = Vec::new();
    push_le_bytes(&mut out, 0x0102_0304, 4);
    assert_eq!(out, vec![0x04, 0x03, 0x02, 0x01]);
    let mut out = Vec::new();
    push_le_bytes(&mut out, 0x1000000001c6, 8);
    assert_eq!(out, vec![0xc6, 0x01, 0x00, 0x00, 0x00, 0x10, 0x00, 0x00]);
}

#[test]
fn assemble_minimal_image() {
    let mut assembler = ElfAssembler::new();
    let region = assembler.allocate_memory(8);
    assert_eq!(region, 0x600000000000);
    assembler.syscall();
    let image = assembler.assemble();
    assert_eq!(image.len(), CODE_AT + 2);
    // ELF magic and identification
    assert_eq!(&image[0..8], &[0x7f, 0x45, 0x4c, 0x46, 0x02, 0x01, 0x01, 0x00]);
    // type EXEC, machine x86-64
    assert_eq!(&image[16..20], &[0x02, 0x00, 0x3e, 0x00]);
    // entry point
    assert_eq!(&image[24..32], &[0xc6, 0x01, 0x00, 0x00, 0x00, 0x10, 0x00, 0x00]);
    // two program headers, four section headers, name table at index 3
    assert_eq!(&image[56..58], &[0x02, 0x00]);
    assert_eq!(&image[60..64], &[0x04, 0x00, 0x03, 0x00]);
    // text sizes in the program header: 2 bytes on disk and in memory
    assert_eq!(&image[96..104], &[2, 0, 0, 0, 0, 0, 0, 0]);
    assert_eq!(&image[104..112], &[2, 0, 0, 0, 0, 0, 0, 0]);
    // zero-fill segment: base and the 8 allocated bytes
    assert_eq!(&image[136..144], &[0x00, 0x00, 0x00, 0x00, 0x00, 0x60, 0x00, 0x00]);
    assert_eq!(&image[160..168], &[8, 0, 0, 0, 0, 0, 0, 0]);
    // string table contents
    assert_eq!(&image[0x1b0..0x1c6], b"\0.text\0.bss\0.shstrtab\0");
    // the code itself
    assert_eq!(&image[CODE_AT..], &[0x0f, 0x05]);
}

#[test]
fn forward_branch_is_patched() {
    let mut assembler = ElfAssembler::new();
    let target = assembler.allocate_label();
    assembler.je(target);  // offsets 0..6, window at 2
    assembler.syscall();  // offsets 6..8
    assembler.label(target);  // defined at 8
    assembler.syscall();
    let image = assembler.assemble();
    let code = &image[CODE_AT..];
    assert_eq!(&code[0..2], &[0x0f, 0x84]);
    // displacement: target 8, window end 6
    assert_eq!(le32_at(&image, CODE_AT + 2), 2);
    // decoding lands exactly on the definition
    assert_eq!(2 + 6, 8);
}

#[test]
fn backward_branch_is_encoded_immediately() {
    let mut assembler = ElfAssembler::new();
    let top = assembler.allocate_label();
    assembler.label(top);  // defined at 0
    assembler.syscall();  // 0..2
    assembler.jne(top);  // 2..8, window at 4, origin 8
    let image = assembler.assemble();
    let code = &image[CODE_AT..];
    assert_eq!(&code[2..4], &[0x0f, 0x85]);
    assert_eq!(le32_at(&image, CODE_AT + 4), -8);
}

#[test]
fn two_branches_share_a_label() {
    let mut assembler = ElfAssembler::new();
    let target = assembler.allocate_label();
    assembler.je(target);  // window at 2, origin 6
    assembler.jg(target);  // window at 8, origin 12
    assembler.label(target);  // defined at 12
    let image = assembler.assemble();
    assert_eq!(le32_at(&image, CODE_AT + 2), 6);
    assert_eq!(le32_at(&image, CODE_AT + 8), 0);
}

#[test]
fn immediates_are_little_endian() {
    let mut assembler = ElfAssembler::new();
    assembler.mov_rax_u32(0x3c);
    assembler.cmp_r13_u32(16);
    assembler.mov_r9_u64(30000);
    let image = assembler.assemble();
    let code = &image[CODE_AT..];
    assert_eq!(&code[0..5], &[0xb8, 0x3c, 0x00, 0x00, 0x00]);
    assert_eq!(&code[5..12], &[0x49, 0x81, 0xfd, 0x10, 0x00, 0x00, 0x00]);
    assert_eq!(&code[12..22], &[0x49, 0xb9, 0x30, 0x75, 0x00, 0x00, 0x00, 0x00, 0x00, 0x00]);
}

#[test]
fn signed_immediates_use_twos_complement() {
    let mut assembler = ElfAssembler::new();
    assembler.add_r8_i8(-1);
    assembler.add_r8_i8(5);
    assembler.add_r8_i32(-30000);
    let image = assembler.assemble();
    let code = &image[CODE_AT..];
    assert_eq!(&code[0..4], &[0x49, 0x83, 0xc0, 0xff]);
    assert_eq!(&code[4..8], &[0x49, 0x83, 0xc0, 0x05]);
    assert_eq!(&code[8..11], &[0x49, 0x81, 0xc0]);
    assert_eq!(le32_at(&image, CODE_AT + 11), -30000);
}
