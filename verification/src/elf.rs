//! Layout of the produced ELF executable.
//!
//! The image is laid out as follows:
//! - ELF file header (64 bytes)
//! - `.text` program header (56 bytes)
//! - `.bss` program header (56 bytes)
//! - null section header (64 bytes, at file offset 0xb0)
//! - `.text` section header (64 bytes)
//! - `.bss` section header (64 bytes)
//! - string-table section header (64 bytes)
//! - string-table contents (22 bytes, at file offset 0x1b0)
//! - machine code (variable length, at file offset 0x1c6)
//!
//! The loader requires a loadable segment's virtual address and file offset
//! to be congruent modulo the page size, so the code's virtual address must
//! sit 0x1c6 bytes past a page boundary.  The first page of the address
//! space is rejected by the loader, so the code is mapped at
//! 0x1000000001c6 instead; that address doubles as the entry point.  The
//! zero-fill segment holding the tape and the I/O buffers lives at a second
//! fixed base above everything the code can reach.

use vstd::prelude::*;

use crate::bytes::{le_bytes, u16_le, u32_le, u64_le, lemma_le_widths, push_le_bytes};

verus! {

/// Virtual address of the machine code; also the entry point.
pub const TEXT_VIRTUAL_ADDRESS: u64 = 0x1000000001c6;

/// Virtual base of the zero-fill segment (tape and I/O buffers).
pub const BSS_VIRTUAL_ADDRESS: u64 = 0x600000000000;

/// Highest user-space virtual address.
pub const MAX_VIRTUAL_ADDRESS: u64 = 0x7fffffffffff;

/// The code may not grow past the zero-fill segment's base.
pub const MAX_TEXT_SIZE: u64 = BSS_VIRTUAL_ADDRESS - TEXT_VIRTUAL_ADDRESS;

/// The zero-fill segment may not grow past the top of user space.
pub const MAX_BSS_SIZE: u64 = MAX_VIRTUAL_ADDRESS + 1 - BSS_VIRTUAL_ADDRESS;

/// File offset of the machine code: everything before it is headers.
pub const CODE_FILE_OFFSET: usize = 0x1c6;

/// The 64-byte ELF file header.
pub open spec fn elf_header() -> Seq<u8> {
    seq![0x7fu8, 0x45u8, 0x4cu8, 0x46u8]  // magic
        + seq![0x02u8, 0x01u8, 0x01u8, 0x00u8]  // 64-bit, little-endian, version 1, System V
        + u64_le(0)  // padding
        + u16_le(2)  // type: executable
        + u16_le(0x3e)  // machine: x86-64
        + u32_le(1)  // version, again
        + u64_le(TEXT_VIRTUAL_ADDRESS as int)  // entry point
        + u64_le(0x40)  // program header table offset
        + u64_le(0xb0)  // section header table offset
        + u32_le(0)  // flags (unused)
        + u16_le(0x40)  // ELF header size
        + u16_le(0x38)  // program header size
        + u16_le(2)  // program header count: .text, .bss
        + u16_le(0x40)  // section header size
        + u16_le(4)  // section header count: null, .text, .bss, names
        + u16_le(3)  // index of the name-table section
}

/// The `.text` program header: a readable, executable segment whose file
/// size and memory size both equal the length of the generated code.
pub open spec fn text_program_header(text_size: int) -> Seq<u8> {
    u32_le(1)  // type: loadable
        + u32_le(5)  // flags: readable, executable
        + u64_le(CODE_FILE_OFFSET as int)  // file offset
        + u64_le(TEXT_VIRTUAL_ADDRESS as int)  // virtual address
        + u64_le(0)  // physical address (unused)
        + u64_le(text_size)  // size in the file
        + u64_le(text_size)  // size in memory
        + u64_le(0)  // alignment (unused)
}

/// The `.bss` program header: a readable, writable zero-fill segment with
/// no bytes in the file.
pub open spec fn bss_program_header(bss_size: int) -> Seq<u8> {
    u32_le(1)  // type: loadable
        + u32_le(6)  // flags: readable, writable
        + u64_le(0)  // file offset (unused)
        + u64_le(BSS_VIRTUAL_ADDRESS as int)  // virtual address
        + u64_le(0)  // physical address (unused)
        + u64_le(0)  // size in the file: zero-fill
        + u64_le(bss_size)  // size in memory
        + u64_le(0)  // alignment (unused)
}

/// The all-zero null section header.
pub open spec fn null_section_header() -> Seq<u8> {
    Seq::new(64, |i: int| 0u8)
}

/// The `.text` section header (PROGBITS, alloc + exec).
pub open spec fn text_section_header(text_size: int) -> Seq<u8> {
    u32_le(1)  // name offset: ".text"
        + u32_le(1)  // type: PROGBITS
        + u64_le(6)  // flags: ALLOC, EXECINSTR
        + u64_le(TEXT_VIRTUAL_ADDRESS as int)  // virtual address
        + u64_le(CODE_FILE_OFFSET as int)  // file offset
        + u64_le(text_size)  // size
        + u32_le(0)  // linked section (unused)
        + u32_le(0)  // info (unused)
        + u64_le(0)  // alignment (unused)
        + u64_le(0)  // entity size (unused)
}

/// The `.bss` section header (NOBITS, alloc + write).
pub open spec fn bss_section_header(bss_size: int) -> Seq<u8> {
    u32_le(7)  // name offset: ".bss"
        + u32_le(8)  // type: NOBITS
        + u64_le(3)  // flags: WRITE, ALLOC
        + u64_le(BSS_VIRTUAL_ADDRESS as int)  // virtual address
        + u64_le(0)  // file offset (unused)
        + u64_le(bss_size)  // size
        + u32_le(0)  // linked section (unused)
        + u32_le(0)  // info (unused)
        + u64_le(0)  // alignment (unused)
        + u64_le(0)  // entity size (unused)
}

/// The string-table section header.
pub open spec fn string_table_section_header() -> Seq<u8> {
    u32_le(0x0c)  // name offset: ".shstrtab"
        + u32_le(3)  // type: string table
        + u64_le(0)  // flags (none)
        + u64_le(0)  // virtual address (unused)
        + u64_le(0x1b0)  // file offset
        + u64_le(0x16)  // size: 22 bytes
        + u32_le(0)  // linked section (unused)
        + u32_le(0)  // info (unused)
        + u64_le(0)  // alignment (unused)
        + u64_le(0)  // entity size (unused)
}

/// The string-table contents: a null entry, then `.text`, `.bss`,
/// `.shstrtab`, each null-terminated.
pub open spec fn string_table() -> Seq<u8> {
    seq![
        0x00u8,
        0x2eu8, 0x74u8, 0x65u8, 0x78u8, 0x74u8, 0x00u8,
        0x2eu8, 0x62u8, 0x73u8, 0x73u8, 0x00u8,
        0x2eu8, 0x73u8, 0x68u8, 0x73u8, 0x74u8, 0x72u8, 0x74u8, 0x61u8, 0x62u8, 0x00u8,
    ]
}

/// Everything before the machine code: all headers and the string table.
pub open spec fn elf_prefix(text_size: int, bss_size: int) -> Seq<u8> {
    elf_header() + text_program_header(text_size) + bss_program_header(bss_size)
        + null_section_header() + text_section_header(text_size) + bss_section_header(bss_size)
        + string_table_section_header() + string_table()
}

/// The complete image: headers, string table, then the machine code.
pub open spec fn elf_image(code: Seq<u8>, bss_size: int) -> Seq<u8> {
    elf_prefix(code.len() as int, bss_size) + code
}

/// The headers occupy exactly the code's file offset.
pub proof fn lemma_elf_prefix_len(text_size: int, bss_size: int)
    ensures
        elf_prefix(text_size, bss_size).len() == CODE_FILE_OFFSET,
{
    lemma_le_widths();
}

/// Appends the 64-byte ELF file header.
fn push_elf_header(out: &mut Vec<u8>)
    ensures
        final(out)@ == old(out)@ + elf_header(),
{
    let ghost orig = out@;
    out.push(0x7f);
    out.push(0x45);
    out.push(0x4c);
    out.push(0x46);
    out.push(0x02);
    out.push(0x01);
    out.push(0x01);
    out.push(0x00);
    push_le_bytes(out, 0, 8);
    push_le_bytes(out, 2, 2);
    push_le_bytes(out, 0x3e, 2);
    push_le_bytes(out, 1, 4);
    push_le_bytes(out, TEXT_VIRTUAL_ADDRESS, 8);
    push_le_bytes(out, 0x40, 8);
    push_le_bytes(out, 0xb0, 8);
    push_le_bytes(out, 0, 4);
    push_le_bytes(out, 0x40, 2);
    push_le_bytes(out, 0x38, 2);
    push_le_bytes(out, 2, 2);
    push_le_bytes(out, 0x40, 2);
    push_le_bytes(out, 4, 2);
    push_le_bytes(out, 3, 2);
    proof {
        assert(out@ =~= orig + elf_header());
    }
}

/// Appends the `.text` program header.
fn push_text_program_header(out: &mut Vec<u8>, text_size: u64)
    ensures
        final(out)@ == old(out)@ + text_program_header(text_size as int),
{
    let ghost orig = out@;
    push_le_bytes(out, 1, 4);
    push_le_bytes(out, 5, 4);
    push_le_bytes(out, CODE_FILE_OFFSET as u64, 8);
    push_le_bytes(out, TEXT_VIRTUAL_ADDRESS, 8);
    push_le_bytes(out, 0, 8);
    push_le_bytes(out, text_size, 8);
    push_le_bytes(out, text_size, 8);
    push_le_bytes(out, 0, 8);
    proof {
        assert(out@ =~= orig + text_program_header(text_size as int));
    }
}

/// Appends the `.bss` program header.
fn push_bss_program_header(out: &mut Vec<u8>, bss_size: u64)
    ensures
        final(out)@ == old(out)@ + bss_program_header(bss_size as int),
{
    let ghost orig = out@;
    push_le_bytes(out, 1, 4);
    push_le_bytes(out, 6, 4);
    push_le_bytes(out, 0, 8);
    push_le_bytes(out, BSS_VIRTUAL_ADDRESS, 8);
    push_le_bytes(out, 0, 8);
    push_le_bytes(out, 0, 8);
    push_le_bytes(out, bss_size, 8);
    push_le_bytes(out, 0, 8);
    proof {
        assert(out@ =~= orig + bss_program_header(bss_size as int));
    }
}

/// Appends the all-zero null section header.
fn push_null_section_header(out: &mut Vec<u8>)
    ensures
        final(out)@ == old(out)@ + null_section_header(),
{
    let ghost orig = out@;
    let mut i: usize = 0;
    while i < 64
        invariant
            i <= 64,
            out@ =~= orig + Seq::new(i as nat, |j: int| 0u8),
        decreases 64 - i,
    {
        out.push(0x00);
        i = i + 1;
        proof {
            assert(out@ =~= orig + Seq::new(i as nat, |j: int| 0u8));
        }
    }
    proof {
        assert(out@ =~= orig + null_section_header());
    }
}

/// Appends the `.text` section header.
fn push_text_section_header(out: &mut Vec<u8>, text_size: u64)
    ensures
        final(out)@ == old(out)@ + text_section_header(text_size as int),
{
    let ghost orig = out@;
    push_le_bytes(out, 1, 4);
    push_le_bytes(out, 1, 4);
    push_le_bytes(out, 6, 8);
    push_le_bytes(out, TEXT_VIRTUAL_ADDRESS, 8);
    push_le_bytes(out, CODE_FILE_OFFSET as u64, 8);
    push_le_bytes(out, text_size, 8);
    push_le_bytes(out, 0, 4);
    push_le_bytes(out, 0, 4);
    push_le_bytes(out, 0, 8);
    push_le_bytes(out, 0, 8);
    proof {
        assert(out@ =~= orig + text_section_header(text_size as int));
    }
}

/// Appends the `.bss` section header.
fn push_bss_section_header(out: &mut Vec<u8>, bss_size: u64)
    ensures
        final(out)@ == old(out)@ + bss_section_header(bss_size as int),
{
    let ghost orig = out@;
    push_le_bytes(out, 7, 4);
    push_le_bytes(out, 8, 4);
    push_le_bytes(out, 3, 8);
    push_le_bytes(out, BSS_VIRTUAL_ADDRESS, 8);
    push_le_bytes(out, 0, 8);
    push_le_bytes(out, bss_size, 8);
    push_le_bytes(out, 0, 4);
    push_le_bytes(out, 0, 4);
    push_le_bytes(out, 0, 8);
    push_le_bytes(out, 0, 8);
    proof {
        assert(out@ =~= orig + bss_section_header(bss_size as int));
    }
}

/// Appends the string-table section header.
fn push_string_table_section_header(out: &mut Vec<u8>)
    ensures
        final(out)@ == old(out)@ + string_table_section_header(),
{
    let ghost orig = out@;
    push_le_bytes(out, 0x0c, 4);
    push_le_bytes(out, 3, 4);
    push_le_bytes(out, 0, 8);
    push_le_bytes(out, 0, 8);
    push_le_bytes(out, 0x1b0, 8);
    push_le_bytes(out, 0x16, 8);
    push_le_bytes(out, 0, 4);
    push_le_bytes(out, 0, 4);
    push_le_bytes(out, 0, 8);
    push_le_bytes(out, 0, 8);
    proof {
        assert(out@ =~= orig + string_table_section_header());
    }
}

/// Appends the string-table contents.
fn push_string_table(out: &mut Vec<u8>)
    ensures
        final(out)@ == old(out)@ + string_table(),
{
    let ghost orig = out@;
    out.push(0x00);
    out.push(0x2e);
    out.push(0x74);
    out.push(0x65);
    out.push(0x78);
    out.push(0x74);
    out.push(0x00);
    out.push(0x2e);
    out.push(0x62);
    out.push(0x73);
    out.push(0x73);
    out.push(0x00);
    out.push(0x2e);
    out.push(0x73);
    out.push(0x68);
    out.push(0x73);
    out.push(0x74);
    out.push(0x72);
    out.push(0x74);
    out.push(0x61);
    out.push(0x62);
    out.push(0x00);
    proof {
        assert(out@ =~= orig + string_table());
    }
}

/// Appends the headers and the string table for an image whose machine code
/// is `text_size` bytes long and whose zero-fill segment is `bss_size`
/// bytes long.
pub fn push_elf_prefix(out: &mut Vec<u8>, text_size: u64, bss_size: u64)
    ensures
        final(out)@ == old(out)@ + elf_prefix(text_size as int, bss_size as int),
{
    let ghost orig = out@;
    push_elf_header(out);
    push_text_program_header(out, text_size);
    push_bss_program_header(out, bss_size);
    push_null_section_header(out);
    push_text_section_header(out, text_size);
    push_bss_section_header(out, bss_size);
    push_string_table_section_header(out);
    push_string_table(out);
    proof {
        assert(out@ =~= orig + elf_prefix(text_size as int, bss_size as int));
    }
}

} // verus!
