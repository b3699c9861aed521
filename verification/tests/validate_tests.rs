use protogen::intern::StringIntern;
use protogen::validate::repeated_tag;
use protogen::parser::{
    Enum, EnumVariant, Field, FieldType, Location, Message, ParseError, ParseErrorKind,
    ParseTree, Parser, Rpc, Service,
};

fn parse_error(text: &str) -> ParseError {
    match Parser::new(text).parse() {
        Ok(_) => panic!("parsed"),
        Err(e) => e,
    }
}

fn member(owner: &str, name: &str) -> Location {
    Location::Member { owner: String::from(owner), name: String::from(name) }
}

#[test]
fn duplicate_tag_in_one_message_is_rejected() {
    let e = parse_error("syntax = \"proto3\"; message M { int32 a = 1; string b = 1; }");
    assert_eq!(
        e,
        ParseError { kind: ParseErrorKind::DuplicateFieldTag(1), location: member("M", "b") }
    );
}

#[test]
fn same_tag_in_different_messages_is_fine() {
    let text = "syntax = \"proto3\";
    message A { int32 a = 1; message B { int32 b = 1; } }
    message C { int32 c = 1; }";
    assert!(Parser::new(text).parse().is_ok());
}

#[test]
fn duplicate_tag_in_a_nested_message_is_found() {
    let text = "syntax = \"proto3\";
    message A { int32 a = 1; message B { int32 x = 2; int32 y = 3; int32 z = 2; } }";
    assert_eq!(
        parse_error(text),
        ParseError { kind: ParseErrorKind::DuplicateFieldTag(2), location: member("B", "z") }
    );
}

#[test]
fn first_repeating_field_is_reported() {
    let text = "syntax = \"proto3\";
    message A { int32 a = 1; int32 b = 2; int32 c = 2; int32 d = 1; }";
    assert_eq!(
        parse_error(text),
        ParseError { kind: ParseErrorKind::DuplicateFieldTag(2), location: member("A", "c") }
    );
}

#[test]
fn unknown_field_type_is_rejected() {
    let e = parse_error("syntax = \"proto3\"; message M { Missing m = 1; }");
    assert_eq!(
        e,
        ParseError {
            kind: ParseErrorKind::UnresolvedType(String::from("Missing")),
            location: member("M", "m"),
        }
    );
}

#[test]
fn forward_and_nested_references_resolve() {
    let text = "syntax = \"proto3\";
    message A { B b = 1; Deep d = 2; A again = 3; }
    message B { message Deeper { message Deep { } } }
    service S { rpc f(Deep) returns (A); }";
    assert!(Parser::new(text).parse().is_ok());
}

#[test]
fn duplicate_tags_are_reported_before_unresolved_types() {
    let text = "syntax = \"proto3\";
    message A { Missing m = 1; }
    message B { int32 x = 5; int32 y = 5; }";
    assert_eq!(
        parse_error(text),
        ParseError { kind: ParseErrorKind::DuplicateFieldTag(5), location: member("B", "y") }
    );
}

#[test]
fn unknown_rpc_types_are_rejected() {
    let text = "syntax = \"proto3\"; message A {} service S { rpc f(Nope) returns (A); }";
    assert_eq!(
        parse_error(text),
        ParseError {
            kind: ParseErrorKind::UnresolvedType(String::from("Nope")),
            location: member("S", "f"),
        }
    );
    let text = "syntax = \"proto3\"; message A {} service S { rpc f(A) returns (A); rpc g(A) returns (Gone); }";
    assert_eq!(
        parse_error(text),
        ParseError {
            kind: ParseErrorKind::UnresolvedType(String::from("Gone")),
            location: member("S", "g"),
        }
    );
}

#[test]
fn field_types_are_checked_before_rpc_types() {
    let text = "syntax = \"proto3\";
    service S { rpc f(Nope) returns (Nope); }
    message A { message B { Lost l = 1; } }";
    assert_eq!(
        parse_error(text),
        ParseError {
            kind: ParseErrorKind::UnresolvedType(String::from("Lost")),
            location: member("B", "l"),
        }
    );
}

fn tree_with_enum(reference: &str) -> ParseTree {
    let mut intern = StringIntern::new();
    let holder = intern.get_id("Holder");
    let color = intern.get_id("Color");
    let red = intern.get_id("Red");
    let field = intern.get_id("shade");
    let target = intern.get_id(reference);
    ParseTree {
        messages: vec![Message {
            name: holder,
            fields: vec![Field {
                name: field,
                idx: 1,
                ftype: FieldType::Enum(target),
                optional: false,
            }],
            messages: vec![],
            enums: vec![Enum { name: color, variants: vec![EnumVariant { name: red, id: 0 }] }],
        }],
        enums: vec![],
        services: vec![Service {
            name: holder,
            rpcs: vec![Rpc { name: field, arg_type: holder, ret_type: color }],
        }],
        intern,
    }
}

#[test]
fn enums_are_declarations_too() {
    assert_eq!(tree_with_enum("Color").validate(), Ok(()));
    assert_eq!(
        tree_with_enum("Colour").validate(),
        Err(ParseError {
            kind: ParseErrorKind::UnresolvedType(String::from("Colour")),
            location: member("Holder", "shade"),
        })
    );
}

#[test]
fn tree_gives_the_text_of_its_handles() {
    let tree = tree_with_enum("Color");
    assert_eq!(tree.get_str(0).as_str(), "Holder");
    assert_eq!(tree.get_str(3).as_str(), "shade");
}

#[test]
fn repeated_tag_finds_the_first_repeat() {
    let field = |idx: u32| Field { name: 0, idx, ftype: FieldType::Int32, optional: false };
    assert_eq!(repeated_tag(&vec![]), None);
    assert_eq!(repeated_tag(&vec![field(1), field(2), field(3)]), None);
    assert_eq!(repeated_tag(&vec![field(1), field(2), field(1), field(2)]), Some(2));
    assert_eq!(repeated_tag(&vec![field(0), field(0)]), Some(1));
}

#[test]
fn empty_tree_is_valid() {
    let tree = ParseTree::default();
    assert_eq!(tree.validate(), Ok(()));
    assert!(tree.messages.is_empty() && tree.enums.is_empty() && tree.services.is_empty());
    assert_eq!(tree.intern.len(), 0);
}
