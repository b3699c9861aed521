//! A front end for a proto3-style schema language: a lexer, a recursive-descent
//! parser that interns identifiers, a validator, a lowering step that detaches
//! the tree from its interner, and code generators over the lowered tree.

pub mod casing;
pub mod codegen_csharp;
pub mod codegen_rust;
pub mod cursor;
pub mod decimal;
pub mod framing;
pub mod grammar;
pub mod intern;
pub mod lexis;
pub mod parser;
pub mod pipeline;
pub mod serializable_tree;
pub mod text;
pub mod tree;
pub mod validate;
