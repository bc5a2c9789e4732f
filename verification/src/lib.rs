//! The front half of a compiler for a small bracket-delimited scripting language:
//! source text becomes tokens, tokens become a syntax tree, the tree is checked
//! and typed, and the checked tree is lowered to instructions for an IR builder.
//!
//! Beside the compiler stand its smaller tools: a bytecode emitter and compiler,
//! two bytecode machines, and a line-by-line diagnosis of source files.

pub mod text;
pub mod token;
pub mod lexer;
pub mod ast;
pub mod parser;
pub mod parser_laws;
pub mod render;
pub mod symbols;
pub mod analyzer;
pub mod analysis_laws;
pub mod codegen;
pub mod pipeline;
pub mod bytecode;
pub mod compiler;
pub mod stack_vm;
pub mod object_vm;
pub mod patterns;
pub mod diagnose;
