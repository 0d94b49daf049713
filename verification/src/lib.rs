//! A toolchain for the BRISC8 eight-bit architecture: an assembly lexer,
//! an assembler, a Brainfuck-to-assembly compiler and an emulator core.
use vstd::prelude::*;

pub mod text;
pub mod isa;
pub mod lexer;
pub mod tokenizer;
pub mod generator;
pub mod bf_compiler;
pub mod laws;
pub mod brisc8core;
pub mod toolchain;
pub mod bf_semantics;

verus! {
} // verus!
