use protogen::parser::{
    Field, FieldType, Message, Parser, Rpc, Service, Token, TopLevelParse,
};

// Parser tests
#[test]
fn solo_syntax_test() {
    let ident = "syntax = \"proto3\";";
    let mut p = Parser::new(ident);
    assert_eq!(p.next_parse(), Some(Ok(TopLevelParse::SyntaxStatement)));
    assert_eq!(p.next_parse(), None);
}

#[test]
fn solo_service_test() {
    let ident = "service hi {
        rpc do(something) returns (null);
    
    }";
    let mut p = Parser::new(ident);
    assert_eq!(
        p.next_parse(),
        Some(Ok(TopLevelParse::Service(Service {
            name: p.intern.get_id("hi"),
            rpcs: vec![Rpc {
                name: p.intern.get_id("do"),
                arg_type: p.intern.get_id("something"),
                ret_type: p.intern.get_id("null"),
            }]
        })))
    );
    assert_eq!(p.next_parse(), None);
}

#[test]
fn solo_message_test() {
    let ident = "message HiReq {
        optional string msg = 1;
        message inner {
            int32 inner_field = 1;
        }
        inner idx = 2;
    }";
    let mut p = Parser::new(ident);
    assert_eq!(
        p.next_parse(),
        Some(Ok(TopLevelParse::Message(Message {
            name: p.intern.get_id("HiReq"),
            fields: vec![
                Field {
                    name: p.intern.get_id("msg"),
                    idx: 1,
                    ftype: FieldType::String,
                    optional: true,
                },
                Field {
                    name: p.intern.get_id("idx"),
                    idx: 2,
                    ftype: FieldType::Message(p.intern.get_id("inner")),
                    optional: false,
                }
            ],
            messages: vec![Message {
                name: p.intern.get_id("inner"),
                fields: vec![Field {
                    name: p.intern.get_id("inner_field"),
                    idx: 1,
                    ftype: FieldType::Int32,
                    optional: false,
                },],
                messages: vec![],
                enums: vec![],
            }],
            enums: vec![],
        })))
    );
    assert_eq!(p.next_parse(), None);
}

// Tokenizer tests
#[test]
fn solo_ident_test() {
    let ident = "hello";
    let mut p = Parser::new(ident);
    assert_eq!(Some(Token::Ident(String::from(ident))), p.next_token());
    assert_eq!(None, p.next_token());
}

#[test]
fn single_tokens_test() {
    let chars = ";{}()\"=";
    let mut p = Parser::new(chars);
    assert_eq!(Some(Token::Semicolon), p.next_token());
    assert_eq!(Some(Token::BraceOpen), p.next_token());
    assert_eq!(Some(Token::BraceClose), p.next_token());
    assert_eq!(Some(Token::ParensOpen), p.next_token());
    assert_eq!(Some(Token::ParensClose), p.next_token());
    assert_eq!(Some(Token::Quote), p.next_token());
    assert_eq!(Some(Token::Equals), p.next_token());
    assert_eq!(None, p.next_token());
}

#[test]
fn solo_number_test() {
    let number = "12348";
    let mut p = Parser::new(number);
    assert_eq!(Some(Token::Number(String::from(number))), p.next_token());
    assert_eq!(None, p.next_token());
}

#[test]
fn solo_comment_test() {
    let comment = "// hello comment";
    let mut p = Parser::new(comment);
    assert_eq!(Some(Token::Comment(String::from(comment))), p.next_token());
    assert_eq!(None, p.next_token());
}

#[test]
fn solo_multiline_comment_test() {
    let comment = "/* hello comment
    */";
    let mut p = Parser::new(comment);
    assert_eq!(Some(Token::Comment(String::from(comment))), p.next_token());
    assert_eq!(None, p.next_token());
}

#[test]
fn solo_whitespace_test() {
    let whitespace = "     
    
    ";
    let mut p = Parser::new(whitespace);
    assert_eq!(Some(Token::Whitespace), p.next_token());
    assert_eq!(None, p.next_token());
}

#[test]
fn complex_test() {
    let src = "
syntax = \"proto3\";

// Some comment
service hi {
    rpc do(something) returns (null);

}";
    let mut p = Parser::new(src);
    assert_eq!(Some(Token::Whitespace), p.next_token());
    assert_eq!(Some(Token::Ident(String::from("syntax"))), p.next_token());
    assert_eq!(Some(Token::Whitespace), p.next_token());
    assert_eq!(Some(Token::Equals), p.next_token());
    assert_eq!(Some(Token::Whitespace), p.next_token());
    assert_eq!(Some(Token::Quote), p.next_token());
    assert_eq!(Some(Token::Ident(String::from("proto3"))), p.next_token());
    assert_eq!(Some(Token::Quote), p.next_token());
    assert_eq!(Some(Token::Semicolon), p.next_token());
    assert_eq!(Some(Token::Whitespace), p.next_token());
    assert_eq!(
        Some(Token::Comment(String::from("// Some comment"))),
        p.next_token()
    );
    assert_eq!(Some(Token::Ident(String::from("service"))), p.next_token());
    assert_eq!(Some(Token::Whitespace), p.next_token());
    assert_eq!(Some(Token::Ident(String::from("hi"))), p.next_token());
    assert_eq!(Some(Token::Whitespace), p.next_token());
    assert_eq!(Some(Token::BraceOpen), p.next_token());
    assert_eq!(Some(Token::Whitespace), p.next_token());
    assert_eq!(Some(Token::Ident(String::from("rpc"))), p.next_token());
    assert_eq!(Some(Token::Whitespace), p.next_token());
    assert_eq!(Some(Token::Ident(String::from("do"))), p.next_token());
    assert_eq!(Some(Token::ParensOpen), p.next_token());
    assert_eq!(
        Some(Token::Ident(String::from("something"))),
        p.next_token()
    );
    assert_eq!(Some(Token::ParensClose), p.next_token());
    assert_eq!(Some(Token::Whitespace), p.next_token());
    assert_eq!(Some(Token::Ident(String::from("returns"))), p.next_token());
    assert_eq!(Some(Token::Whitespace), p.next_token());
    assert_eq!(Some(Token::ParensOpen), p.next_token());
    assert_eq!(Some(Token::Ident(String::from("null"))), p.next_token());
    assert_eq!(Some(Token::ParensClose), p.next_token());
    assert_eq!(Some(Token::Semicolon), p.next_token());
    assert_eq!(Some(Token::Whitespace), p.next_token());
    assert_eq!(Some(Token::BraceClose), p.next_token());
    assert_eq!(None, p.next_token());
}
