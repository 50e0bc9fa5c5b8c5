//! Core of a WebAssembly decompiler back-end: a binary module decoder, the
//! instruction catalogue with the builder of nested expressions, and an
//! Earley parser that yields a shared packed parse forest.

pub mod wasm_model;
pub mod instr_table;
pub mod file_reader;
pub mod sections;
pub mod encoding;
pub mod nesting;
pub mod opcodes;
pub mod sizes;
pub mod parser;
pub mod text;
pub mod usdm;
pub mod wasm_parser;
pub mod wat_emitter;
pub mod wat_expr;
