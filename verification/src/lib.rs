//! An ahead-of-time compiler that turns a stream of primitive tape-machine
//! operators into a directly runnable Linux x86-64 ELF executable, with no
//! external assembler or linker.
//!
//! The pipeline is: a byte [`stream::Stream`] is folded into typed tokens by
//! [`parser::parse`] (or, equivalently, by [`lexer::Lexer`]); the
//! code generator [`compiler::compile`] translates each token into machine
//! instructions emitted through the [`assembler::Assembler`] interface of
//! [`elf_assembler::ElfAssembler`], which owns the machine-code buffer and
//! the label-relocation table; finally the assembler stitches the generated
//! code into a loadable ELF image whose layout is specified in [`elf`].
//!
//! The whole crate is verified: [`compiler::compile`] promises that a
//! balanced source yields exactly the image that the mathematical generator
//! [`compiler::gen_from`] assigns to it, that an unbalanced source is
//! rejected at the offending bracket's recorded position, and — through the
//! assembler's invariant — that every branch displacement in the image
//! decodes to its target label's definition.  The laws in [`semantics`]
//! hold the generator's reduction policies to tape and cell arithmetic
//! modulo the tape length and the cell width.

pub mod assembler;
pub mod bytes;
pub mod compiler;
pub mod elf;
pub mod elf_assembler;
pub mod instruction;
pub mod lexer;
pub mod parser;
pub mod scan;
pub mod semantics;
pub mod stream;
pub mod tree;

use vstd::prelude::*;

verus! {

} // verus!
