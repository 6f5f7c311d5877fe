//! Core of the Bur scripting language: source text handling, bytecode
//! generation and the reference-counted runtime pools.

pub mod bytecode;
pub mod parse_tree;
pub mod runtime;
pub mod string;
pub mod tokenizer;
