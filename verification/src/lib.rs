//! A bytecode virtual machine for a small scripting language: a scanner that
//! turns source bytes into tokens, a chunk that holds bytecode with its
//! constants and line table, and a stack machine that executes a chunk.

pub mod chunk;
pub mod collections;
pub mod opcode;
pub mod token;
pub mod value;
pub mod vm;
pub mod scanner;
pub mod compiler;
