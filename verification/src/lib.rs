//! A small compiler for a subset of C: lexing, parsing, name resolution,
//! lowering to a three-address form, x86-64 code generation and assembly
//! text emission.

pub mod text;
pub mod lex;
pub mod parse;
pub mod sema;
pub mod tacky;
pub mod assembler;
pub mod emit;
pub mod driver;
