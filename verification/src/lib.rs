//! Front end of a compiler for a small statically-typed language: a tokenizer
//! with peek support, a recursive-descent parser that builds a namespaced
//! declaration tree, a deferred name-resolution pass, and an emitter that
//! renders the resolved tree as textual LLVM IR.

pub mod ast;
pub mod codegenerator;
pub mod parser;
pub mod text;
pub mod tokenizer;
