use protogen::codegen_csharp::CsharpCodeGen;
use protogen::codegen_rust::RustCodeGen;
use protogen::parser::{ParseError, Parser};
use protogen::serializable_tree::{
    Enum, EnumVariant, Field, Message, Rpc, SerializeTree, Service,
};

#[test]
fn test_struct_write() -> Result<(), ParseError> {
    let text = "
    syntax = \"proto3\";
    message TestMessage {
        int32 page_number = 1;
    }
    ";
    let p = Parser::new(text);
    let tree = p.parse()?;
    let serial = SerializeTree::from_parse_tree(&tree);
    let out = RustCodeGen::gen(&serial);

    assert_eq!(
        out,
        "pub struct TestMessage {
pub page_number: i32,
}
"
    );

    Ok(())
}

fn generated(text: &str) -> (String, String) {
    let tree = Parser::new(text).parse().unwrap();
    let serial = SerializeTree::from_parse_tree(&tree);
    (RustCodeGen::gen(&serial), CsharpCodeGen::gen(&serial))
}

#[test]
fn struct_name_and_member_do_not_depend_on_input_casing() {
    let expected = "pub struct TestMessage {\npub page_number: i32,\n}\n";
    let (a, _) = generated("syntax = \"proto3\"; message TestMessage { int32 page_number = 1; }");
    let (b, _) = generated("syntax = \"proto3\"; message test_message { int32 pageNumber = 1; }");
    let (c, _) = generated("syntax = \"proto3\"; message testMessage { int32 PageNumber = 1; }");
    assert_eq!(a, expected);
    assert_eq!(b, expected);
    assert_eq!(c, expected);
    assert_eq!(a.matches("pub struct").count(), 1);
    assert_eq!(a.matches("page_number").count(), 1);
}

#[test]
fn csharp_struct_for_one_message() {
    let (_, cs) = generated("syntax = \"proto3\"; message test_message { int32 pageNumber = 1; }");
    assert_eq!(cs, "public struct TestMessage\n{\n    public int page_number;\n}\n");
}

#[test]
fn each_backend_has_its_own_scalar_names() {
    let text = "syntax = \"proto3\";
    message Scalars {
        int32 a = 1;
        int64 b = 2;
        uint32 c = 3;
        uint64 d = 4;
        string e = 5;
    }";
    let (rs, cs) = generated(text);
    assert_eq!(
        rs,
        "pub struct Scalars {\npub a: i32,\npub b: i64,\npub c: u32,\npub d: u64,\npub e: &[u8],\n}\n"
    );
    assert_eq!(
        cs,
        "public struct Scalars\n{\n    public int a;\n    public long b;\n    public uint c;\n    public ulong d;\n    public string e;\n}\n"
    );
}

#[test]
fn nested_declarations_come_before_their_container() {
    let text = "syntax = \"proto3\";
    message outer {
        message inner_most { int32 x = 1; }
        inner_most held = 2;
    }";
    let (rs, cs) = generated(text);
    assert_eq!(
        rs,
        "pub struct InnerMost {\npub x: i32,\n}\npub struct Outer {\npub held: InnerMost,\n}\n"
    );
    assert_eq!(
        cs,
        "public struct InnerMost\n{\n    public int x;\n}\npublic struct Outer\n{\n    public InnerMost held;\n}\n"
    );
    assert_eq!(rs.matches("pub struct InnerMost").count(), 1);
    assert_eq!(rs.matches("pub struct Outer").count(), 1);
}

#[test]
fn service_becomes_one_stub_per_rpc() {
    let text = "syntax = \"proto3\";
    message Input { int32 key = 1; }
    message Empty {}
    service Backend {
        rpc InputEvent(Input) returns (Empty);
        rpc Ping(Empty) returns (Empty);
    }";
    let (rs, cs) = generated(text);
    assert_eq!(
        rs,
        "pub struct Input {\npub key: i32,\n}\npub struct Empty {\n}\n\
pub fn input_event(arg: Input) -> Empty {\nunimplemented!(\"not yet wired to a transport\")\n}\n\
pub fn ping(arg: Empty) -> Empty {\nunimplemented!(\"not yet wired to a transport\")\n}\n"
    );
    assert_eq!(
        cs,
        "public struct Input\n{\n    public int key;\n}\npublic struct Empty\n{\n}\n\
public static class Backend\n{\n\
\x20   public static Empty input_event(Input arg)\n    {\n        throw new System.NotImplementedException(\"not yet wired to a transport\");\n    }\n\
\x20   public static Empty ping(Empty arg)\n    {\n        throw new System.NotImplementedException(\"not yet wired to a transport\");\n    }\n\
}\n"
    );
}

fn tree_with_enums() -> SerializeTree {
    SerializeTree {
        messages: vec![Message {
            name: String::from("Input"),
            fields: vec![Field {
                name: String::from("key_code"),
                idx: 0,
                ftype: String::from("KeyCode"),
                optional: false,
            }],
            messages: vec![],
            enums: vec![Enum {
                name: String::from("mouse_button"),
                variants: vec![EnumVariant { name: String::from("left"), id: 7 }],
            }],
        }],
        enums: vec![Enum {
            name: String::from("KeyCode"),
            variants: vec![
                EnumVariant { name: String::from("Spacebar"), id: 0 },
                EnumVariant { name: String::from("Enter"), id: 1 },
                EnumVariant { name: String::from("page_down"), id: 4294967295 },
            ],
        }],
        services: vec![Service {
            name: String::from("Backend"),
            rpcs: vec![Rpc {
                name: String::from("InputEvent"),
                arg_type: String::from("Input"),
                ret_type: String::from("Empty"),
            }],
        }],
    }
}

#[test]
fn enum_variants_keep_their_numbers() {
    let serial = tree_with_enums();
    assert_eq!(
        RustCodeGen::gen(&serial),
        "pub enum MouseButton {\nLeft = 7,\n}\n\
pub struct Input {\npub key_code: KeyCode,\n}\n\
pub enum KeyCode {\nSpacebar = 0,\nEnter = 1,\nPageDown = 4294967295,\n}\n\
pub fn input_event(arg: Input) -> Empty {\nunimplemented!(\"not yet wired to a transport\")\n}\n"
    );
    assert_eq!(
        CsharpCodeGen::gen(&serial),
        "public enum MouseButton\n{\n    Left = 7,\n}\n\
public struct Input\n{\n    public KeyCode key_code;\n}\n\
public enum KeyCode\n{\n    Spacebar = 0,\n    Enter = 1,\n    PageDown = 4294967295,\n}\n\
public static class Backend\n{\n\
\x20   public static Empty input_event(Input arg)\n    {\n        throw new System.NotImplementedException(\"not yet wired to a transport\");\n    }\n\
}\n"
    );
}

#[test]
fn empty_tree_generates_nothing() {
    let serial = SerializeTree { messages: vec![], enums: vec![], services: vec![] };
    assert_eq!(RustCodeGen::gen(&serial), "");
    assert_eq!(CsharpCodeGen::gen(&serial), "");
}

#[test]
fn emitters_take_cased_names() {
    let mut out = String::from("// ");
    protogen::codegen_rust::emit_field(&mut out, "a_b", "Cd");
    assert_eq!(out, "// pub a_b: Cd,\n");
    let mut out = String::new();
    protogen::codegen_rust::emit_struct_open(&mut out, "Name");
    protogen::codegen_rust::emit_enum_open(&mut out, "Other");
    protogen::codegen_rust::emit_variant(&mut out, "V", 10);
    protogen::codegen_rust::emit_stub(&mut out, "f", "A", "R");
    assert_eq!(
        out,
        "pub struct Name {\npub enum Other {\nV = 10,\npub fn f(arg: A) -> R {\nunimplemented!(\"not yet wired to a transport\")\n}\n"
    );
    let mut out = String::new();
    protogen::codegen_csharp::emit_field(&mut out, "a_b", "Cd");
    protogen::codegen_csharp::emit_struct_open(&mut out, "Name");
    protogen::codegen_csharp::emit_enum_open(&mut out, "Other");
    protogen::codegen_csharp::emit_class_open(&mut out, "Svc");
    protogen::codegen_csharp::emit_variant(&mut out, "V", 10);
    assert_eq!(
        out,
        "    public Cd a_b;\npublic struct Name\n{\npublic enum Other\n{\npublic static class Svc\n{\n    V = 10,\n"
    );
}

#[test]
fn type_names_of_each_backend() {
    assert_eq!(protogen::codegen_rust::rust_type_name("i64"), "i64");
    assert_eq!(protogen::codegen_rust::rust_type_name("String"), "&[u8]");
    assert_eq!(protogen::codegen_rust::rust_type_name("inner_type"), "InnerType");
    assert_eq!(protogen::codegen_csharp::csharp_type_name("u64"), "ulong");
    assert_eq!(protogen::codegen_csharp::csharp_type_name("String"), "string");
    assert_eq!(protogen::codegen_csharp::csharp_type_name("inner_type"), "InnerType");
}
