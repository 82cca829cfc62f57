//! An assembler and virtual machine for a small stack-based instruction set.
//!
//! The assembler turns mnemonic source text into a program of typed opcodes,
//! resolving label references to numeric addresses in a second stage; the
//! virtual machine executes the resolved program against an operand stack.

pub mod compiler;
pub mod lexer;
pub mod opcode;
pub mod text;
pub mod vm;
