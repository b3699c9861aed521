use protogen::parser::{Location, ParseErrorKind, Parser};
use protogen::pipeline::{generate, lower, parse, BackendKind};

const TEXT: &str = "syntax = \"proto3\";
message page_request {
    int32 page_number = 1;
    optional string query = 2;
}
service search {
    rpc find(page_request) returns (page_request);
}
";

#[test]
fn text_goes_through_the_three_steps() {
    let tree = parse(TEXT).unwrap();
    let serial = lower(tree);
    assert_eq!(
        generate(&serial, BackendKind::Rust),
        "pub struct PageRequest {\npub page_number: i32,\npub query: &[u8],\n}\n\
pub fn find(arg: PageRequest) -> PageRequest {\nunimplemented!(\"not yet wired to a transport\")\n}\n"
    );
}

#[test]
fn one_lowered_tree_feeds_every_backend() {
    let serial = lower(parse(TEXT).unwrap());
    let rust = generate(&serial, BackendKind::Rust);
    let csharp = generate(&serial, BackendKind::Csharp);
    assert_eq!(rust, protogen::codegen_rust::RustCodeGen::gen(&serial));
    assert_eq!(csharp, protogen::codegen_csharp::CsharpCodeGen::gen(&serial));
    assert_eq!(generate(&serial, BackendKind::Rust), rust);
    assert!(csharp.starts_with("public struct PageRequest\n{\n    public int page_number;\n"));
}

#[test]
fn parse_fails_with_the_first_error() {
    let e = parse("syntax = \"proto3\"; message A { B b = 1; B c = 1; }").unwrap_err();
    assert_eq!(e.kind, ParseErrorKind::DuplicateFieldTag(1));
    let e = parse("syntax = \"proto3\"; message A { B b = 1; }").unwrap_err();
    assert_eq!(e.kind, ParseErrorKind::UnresolvedType(String::from("B")));
    let e = parse("message").unwrap_err();
    assert_eq!(e.location, Location::Source { line: 0, column: 7 });
}

#[test]
fn position_counts_lines_and_columns() {
    let mut p = Parser::new("ab\ncd\n\nx");
    assert_eq!(p.position(), (0, 0));
    p.next_char();
    p.next_char();
    assert_eq!(p.position(), (0, 2));
    p.next_char();
    assert_eq!(p.position(), (1, 1));
    p.next_char();
    assert_eq!(p.peek_char(), Some('d'));
    assert_eq!(p.position(), (1, 2));
    p.unnext_char(Some('c'));
    assert_eq!(p.position(), (1, 2));
    while p.next_char().is_some() {}
    assert_eq!(p.position(), (3, 2));
}
