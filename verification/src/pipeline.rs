//! The three steps from text to generated code: parse, lower, generate.

use crate::codegen_csharp;
use crate::codegen_csharp::CsharpCodeGen;
use crate::codegen_rust;
use crate::codegen_rust::RustCodeGen;
use crate::cursor::start;
use crate::grammar;
use crate::parser::{result_view, ParseError, ParseTree, Parser};
use crate::serializable_tree;
use crate::serializable_tree::{SerializeTree, SerializeTreeView};
use vstd::prelude::*;

verus! {

/// The output forms that code can be generated in.
#[derive(Debug, Clone, Copy, PartialEq, Eq, Structural)]
pub enum BackendKind {
    Rust,
    Csharp,
}

/// The text that a backend generates for a lowered tree.
pub open spec fn generated_text(serial: SerializeTreeView, backend: BackendKind) -> Seq<char> {
    match backend {
        BackendKind::Rust => codegen_rust::file_text(serial),
        BackendKind::Csharp => codegen_csharp::file_text(serial),
    }
}

/// Parses and validates a schema text. It either succeeds with the whole
/// tree or fails with the first error.
pub fn parse(text: &str) -> (res: Result<ParseTree, ParseError>)
    ensures
        result_view(res) == grammar::file(start(text@)),
        res matches Ok(tree) ==> tree.wf(),
{
    Parser::new(text).parse()
}

/// Lowers a tree. The tree and its interner are used up: the lowered tree
/// owns all its text.
pub fn lower(tree: ParseTree) -> (res: SerializeTree)
    requires
        tree.wf(),
    ensures
        res@ == serializable_tree::lower(tree@),
{
    SerializeTree::from_parse_tree(&tree)
}

/// Generates the text of one backend for a lowered tree, which stays as it
/// is and can feed other backends.
pub fn generate(serial: &SerializeTree, backend: BackendKind) -> (out: String)
    ensures
        out@ == generated_text(serial@, backend),
{
    match backend {
        BackendKind::Rust => RustCodeGen::gen(serial),
        BackendKind::Csharp => CsharpCodeGen::gen(serial),
    }
}

} // verus!
