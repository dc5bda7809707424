//! A single-pass compiler and stack virtual machine for a small expression
//! language: a scanner, a Pratt parser that writes bytecode into a chunk, and
//! a VM that runs it.
#![allow(non_camel_case_types)]

pub mod chunk;
pub mod compiler;
pub mod expr;
pub mod object;
pub mod op_code;
pub mod text;
pub mod token;
pub mod value;
pub mod vm;
