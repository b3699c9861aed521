use protogen::parser::{
    Expected, Location, ParseError, ParseErrorKind, Parser, Token, TopLevelParse,
};

fn parse_error(text: &str) -> ParseError {
    match Parser::new(text).parse() {
        Ok(_) => panic!("parsed"),
        Err(e) => e,
    }
}

fn unexpected(expected: Expected, actual: Option<Token>, line: usize, column: usize) -> ParseError {
    ParseError {
        kind: ParseErrorKind::UnexpectedToken(expected, actual),
        location: Location::Source { line, column },
    }
}

fn ident(s: &str) -> Option<Token> {
    Some(Token::Ident(String::from(s)))
}

#[test]
fn empty_file_lacks_the_syntax_pragma() {
    assert_eq!(parse_error(""), unexpected(Expected::SyntaxKeyword, None, 0, 0));
    assert_eq!(parse_error("  \n "), unexpected(Expected::SyntaxKeyword, None, 1, 2));
}

#[test]
fn first_item_must_be_the_syntax_pragma() {
    assert_eq!(
        parse_error("message A {}"),
        unexpected(Expected::SyntaxKeyword, ident("message"), 0, 12)
    );
    assert_eq!(
        parse_error("service A {}"),
        unexpected(Expected::SyntaxKeyword, ident("service"), 0, 12)
    );
}

#[test]
fn syntax_pragma_stands_only_first() {
    assert_eq!(
        parse_error("syntax = \"proto3\";\nsyntax = \"proto3\";"),
        unexpected(Expected::Declaration, ident("syntax"), 1, 19)
    );
}

#[test]
fn pragma_must_name_proto3_directly_behind_the_quote() {
    assert_eq!(
        parse_error("syntax = \"proto2\";"),
        unexpected(Expected::Version, ident("proto2"), 0, 17)
    );
    assert_eq!(
        parse_error("syntax = \" proto3\";"),
        unexpected(Expected::Version, Some(Token::Whitespace), 0, 12)
    );
    assert!(Parser::new("syntax = \"proto3 \" ;").parse().is_ok());
}

#[test]
fn pragma_parts_are_each_required() {
    assert_eq!(parse_error("syntax \"proto3\";"), unexpected(Expected::Equals, Some(Token::Quote), 0, 8));
    assert_eq!(parse_error("syntax = proto3"), unexpected(Expected::Quote, ident("proto3"), 0, 15));
    assert_eq!(parse_error("syntax = \"proto3;"), unexpected(Expected::Quote, Some(Token::Semicolon), 0, 17));
    assert_eq!(parse_error("syntax = \"proto3\""), unexpected(Expected::Semicolon, None, 0, 17));
}

#[test]
fn top_level_items_are_dispatched_on_their_keyword() {
    let mut p = Parser::new("enum A {}");
    assert_eq!(
        p.next_parse(),
        Some(Err(unexpected(Expected::TopLevelKeyword, ident("enum"), 0, 5)))
    );
    let mut p = Parser::new("{");
    assert_eq!(
        p.next_parse(),
        Some(Err(unexpected(Expected::TopLevelKeyword, Some(Token::BraceOpen), 0, 1)))
    );
    let mut p = Parser::new(" syntax = \"proto3\" ; ");
    assert_eq!(p.next_parse(), Some(Ok(TopLevelParse::SyntaxStatement)));
    assert_eq!(p.next_parse(), None);
}

#[test]
fn message_errors_name_what_was_expected() {
    let head = "syntax = \"proto3\";";
    assert_eq!(
        parse_error(&format!("{head}message {{")),
        unexpected(Expected::Name, Some(Token::BraceOpen), 0, 27)
    );
    assert_eq!(
        parse_error(&format!("{head}message A ;")),
        unexpected(Expected::BraceOpen, Some(Token::Semicolon), 0, 29)
    );
    assert_eq!(
        parse_error(&format!("{head}message A {{ 1")),
        unexpected(Expected::MemberOrBraceClose, Some(Token::Number(String::from("1"))), 0, 31)
    );
    assert_eq!(
        parse_error(&format!("{head}message A {{")),
        unexpected(Expected::MemberOrBraceClose, None, 0, 29)
    );
    assert_eq!(
        parse_error(&format!("{head}message A {{ optional = ")),
        unexpected(Expected::Name, Some(Token::Equals), 0, 40)
    );
    assert_eq!(
        parse_error(&format!("{head}message A {{ int32 = ")),
        unexpected(Expected::Name, Some(Token::Equals), 0, 37)
    );
    assert_eq!(
        parse_error(&format!("{head}message A {{ int32 x 1")),
        unexpected(Expected::Equals, Some(Token::Number(String::from("1"))), 0, 39)
    );
    assert_eq!(
        parse_error(&format!("{head}message A {{ int32 x = y;")),
        unexpected(Expected::FieldTag, ident("y"), 0, 42)
    );
    assert_eq!(
        parse_error(&format!("{head}message A {{ int32 x = 1 }}")),
        unexpected(Expected::Semicolon, Some(Token::BraceClose), 0, 43)
    );
}

#[test]
fn field_tag_must_fit_in_32_bits() {
    let head = "syntax = \"proto3\";";
    assert!(Parser::new(&format!("{head}message A {{ int32 x = 4294967295; }}")).parse().is_ok());
    assert!(Parser::new(&format!("{head}message A {{ int32 x = 0; }}")).parse().is_ok());
    assert_eq!(
        parse_error(&format!("{head}message A {{ int32 x = 4294967296; }}")),
        unexpected(Expected::FieldTag, Some(Token::Number(String::from("4294967296"))), 0, 51)
    );
}

#[test]
fn service_errors_name_what_was_expected() {
    let head = "syntax = \"proto3\";";
    assert_eq!(
        parse_error(&format!("{head}service S {{ message")),
        unexpected(Expected::RpcOrBraceClose, ident("message"), 0, 37)
    );
    assert_eq!(
        parse_error(&format!("{head}service S {{ rpc f A")),
        unexpected(Expected::ParensOpen, ident("A"), 0, 37)
    );
    assert_eq!(
        parse_error(&format!("{head}service S {{ rpc f(A B")),
        unexpected(Expected::ParensClose, ident("B"), 0, 39)
    );
    assert_eq!(
        parse_error(&format!("{head}service S {{ rpc f(A) gives (B);")),
        unexpected(Expected::ReturnsKeyword, ident("gives"), 0, 45)
    );
    assert_eq!(
        parse_error(&format!("{head}service S {{ rpc f(A) returns (B) }}")),
        unexpected(Expected::Semicolon, Some(Token::BraceClose), 0, 52)
    );
}

#[test]
fn lexical_errors_are_reported_as_such() {
    let head = "syntax = \"proto3\";\n";
    assert_eq!(
        parse_error(&format!("{head}message A {{ int32 x = 1 # }}")),
        ParseError {
            kind: ParseErrorKind::LexError(String::from("Unexpected char")),
            location: Location::Source { line: 1, column: 26 },
        }
    );
    assert_eq!(
        parse_error(&format!("{head}message A {{\n /* open")),
        ParseError {
            kind: ParseErrorKind::LexError(String::from("Expected /")),
            location: Location::Source { line: 2, column: 9 },
        }
    );
}

#[test]
fn counters_follow_the_characters_read() {
    // The line end is counted as the first character of its line.
    assert_eq!(
        parse_error("syntax\n\n  ;"),
        unexpected(Expected::Equals, Some(Token::Semicolon), 2, 4)
    );
}

#[test]
fn parsing_stops_at_the_first_error() {
    assert_eq!(
        parse_error("syntax = \"proto3\"; message { message ; # "),
        unexpected(Expected::Name, Some(Token::BraceOpen), 0, 28)
    );
}
