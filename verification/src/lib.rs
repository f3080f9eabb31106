//! A small register-machine toolchain: a two-pass assembler that turns an
//! assembly dialect into a headered bytecode image, and a virtual machine
//! that executes such images.

pub mod assembler;
pub mod instruction;
pub mod laws;
pub mod parser;
pub mod repl;
pub mod scheduler;
pub mod symbols;
pub mod text;
pub mod tokens;
pub mod vm;
