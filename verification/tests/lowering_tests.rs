use protogen::codegen_csharp::field_type_to_csharp_str;
use protogen::intern::StringIntern;
use protogen::parser::{FieldType, Parser};
use protogen::serializable_tree::{
    field_type_to_rust_str, scalar_of_canonical, Field, Message, Rpc, SerializeTree, Service,
};

const TEXT: &str = "syntax = \"proto3\";
message HiReq {
    optional string msg = 1;
    message inner { int32 inner_field = 1; }
    inner idx = 2;
    uint64 big = 3;
}
service hi { rpc do(HiReq) returns (inner); }";

fn expected() -> SerializeTree {
    SerializeTree {
        messages: vec![Message {
            name: String::from("HiReq"),
            fields: vec![
                Field {
                    name: String::from("msg"),
                    idx: 1,
                    ftype: String::from("String"),
                    optional: true,
                },
                Field {
                    name: String::from("idx"),
                    idx: 2,
                    ftype: String::from("inner"),
                    optional: false,
                },
                Field {
                    name: String::from("big"),
                    idx: 3,
                    ftype: String::from("u64"),
                    optional: false,
                },
            ],
            messages: vec![Message {
                name: String::from("inner"),
                fields: vec![Field {
                    name: String::from("inner_field"),
                    idx: 1,
                    ftype: String::from("i32"),
                    optional: false,
                }],
                messages: vec![],
                enums: vec![],
            }],
            enums: vec![],
        }],
        enums: vec![],
        services: vec![Service {
            name: String::from("hi"),
            rpcs: vec![Rpc {
                name: String::from("do"),
                arg_type: String::from("HiReq"),
                ret_type: String::from("inner"),
            }],
        }],
    }
}

#[test]
fn lowering_replaces_handles_by_text() {
    let tree = Parser::new(TEXT).parse().unwrap();
    assert_eq!(SerializeTree::from_parse_tree(&tree), expected());
}

#[test]
fn lowering_twice_gives_equal_trees() {
    let tree = Parser::new(TEXT).parse().unwrap();
    let a = SerializeTree::from_parse_tree(&tree);
    let b = SerializeTree::from_parse_tree(&tree);
    assert_eq!(a, b);
}

#[test]
fn canonical_names_of_field_types() {
    let mut intern = StringIntern::new();
    let id = intern.get_id("Thing");
    assert_eq!(field_type_to_rust_str(&intern, &FieldType::Int32), "i32");
    assert_eq!(field_type_to_rust_str(&intern, &FieldType::Int64), "i64");
    assert_eq!(field_type_to_rust_str(&intern, &FieldType::Uint32), "u32");
    assert_eq!(field_type_to_rust_str(&intern, &FieldType::Uint64), "u64");
    assert_eq!(field_type_to_rust_str(&intern, &FieldType::String), "String");
    assert_eq!(field_type_to_rust_str(&intern, &FieldType::Message(id)), "Thing");
    assert_eq!(field_type_to_rust_str(&intern, &FieldType::Enum(id)), "Thing");
}

#[test]
fn canonical_names_read_back_as_scalars() {
    assert_eq!(scalar_of_canonical("i32"), Some(FieldType::Int32));
    assert_eq!(scalar_of_canonical("i64"), Some(FieldType::Int64));
    assert_eq!(scalar_of_canonical("u32"), Some(FieldType::Uint32));
    assert_eq!(scalar_of_canonical("u64"), Some(FieldType::Uint64));
    assert_eq!(scalar_of_canonical("String"), Some(FieldType::String));
    assert_eq!(scalar_of_canonical("string"), None);
    assert_eq!(scalar_of_canonical("Thing"), None);
}

#[test]
fn scalar_names_of_the_backends() {
    assert_eq!(protogen::codegen_rust::field_type_to_rust_str(&FieldType::Int32), "i32");
    assert_eq!(protogen::codegen_rust::field_type_to_rust_str(&FieldType::Uint64), "u64");
    assert_eq!(protogen::codegen_rust::field_type_to_rust_str(&FieldType::String), "&[u8]");
    assert_eq!(field_type_to_csharp_str(&FieldType::Int32), "int");
    assert_eq!(field_type_to_csharp_str(&FieldType::Int64), "long");
    assert_eq!(field_type_to_csharp_str(&FieldType::Uint32), "uint");
    assert_eq!(field_type_to_csharp_str(&FieldType::Uint64), "ulong");
    assert_eq!(field_type_to_csharp_str(&FieldType::String), "string");
}

#[test]
fn default_field_type_is_undefined() {
    assert_eq!(FieldType::default(), FieldType::Undef);
}
