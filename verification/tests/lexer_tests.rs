use protogen::parser::{tokens_equal, Parser, Token};

fn tokens(text: &str) -> Vec<Token> {
    let mut p = Parser::new(text);
    let mut out = Vec::new();
    while let Some(t) = p.next_token() {
        out.push(t);
    }
    out
}

#[test]
fn identifier_takes_letters_digits_and_underscores() {
    assert_eq!(
        tokens("_a1_B2;c"),
        vec![
            Token::Ident(String::from("_a1_B2")),
            Token::Semicolon,
            Token::Ident(String::from("c")),
        ]
    );
}

#[test]
fn number_is_a_maximal_digit_run() {
    assert_eq!(
        tokens("007abc"),
        vec![Token::Number(String::from("007")), Token::Ident(String::from("abc"))]
    );
}

#[test]
fn line_comment_takes_its_line_end() {
    assert_eq!(
        tokens("// one\n// two\nx"),
        vec![
            Token::Comment(String::from("// one")),
            Token::Comment(String::from("// two")),
            Token::Ident(String::from("x")),
        ]
    );
}

#[test]
fn block_comment_ends_at_first_close() {
    assert_eq!(
        tokens("/**/*/"),
        vec![
            Token::Comment(String::from("/**/")),
            Token::Error(String::from("Unexpected char")),
            Token::Error(String::from("Unexpected char")),
        ]
    );
    assert_eq!(
        tokens("/* a * b / c **/x"),
        vec![Token::Comment(String::from("/* a * b / c **/")), Token::Ident(String::from("x"))]
    );
}

#[test]
fn block_comment_needs_a_star_of_its_own_to_close() {
    assert_eq!(tokens("/*/"), vec![Token::Error(String::from("Expected /"))]);
}

#[test]
fn unterminated_block_comment_is_an_error() {
    assert_eq!(tokens("/* never closed"), vec![Token::Error(String::from("Expected /"))]);
    assert_eq!(tokens("/* almost *"), vec![Token::Error(String::from("Expected /"))]);
}

#[test]
fn slash_before_another_character_is_an_error_that_takes_both() {
    assert_eq!(
        tokens("/ab"),
        vec![Token::Error(String::from("Expected /")), Token::Ident(String::from("b"))]
    );
}

#[test]
fn slash_at_the_end_is_an_unexpected_character() {
    assert_eq!(tokens("/"), vec![Token::Error(String::from("Unexpected char"))]);
}

#[test]
fn any_other_character_is_an_error_token() {
    assert_eq!(
        tokens("a#b"),
        vec![
            Token::Ident(String::from("a")),
            Token::Error(String::from("Unexpected char")),
            Token::Ident(String::from("b")),
        ]
    );
    assert_eq!(tokens("\u{bd}"), vec![Token::Error(String::from("Unexpected char"))]);
}

#[test]
fn whitespace_is_one_token_per_run() {
    assert_eq!(
        tokens(" \t\r\n\u{a0}x \u{3000}"),
        vec![Token::Whitespace, Token::Ident(String::from("x")), Token::Whitespace]
    );
}

#[test]
fn empty_input_has_no_token() {
    assert_eq!(tokens(""), vec![]);
    let mut p = Parser::new("");
    assert_eq!(p.next_non_ws_token(), None);
    assert_eq!(p.peek_char(), None);
    assert_eq!(p.next_char(), None);
}

#[test]
fn significant_tokens_skip_whitespace_and_comments() {
    let mut p = Parser::new("  /* c */ // d\n  a /**/ = ");
    assert_eq!(p.next_non_ws_token(), Some(Token::Ident(String::from("a"))));
    assert_eq!(p.next_non_ws_token(), Some(Token::Equals));
    assert_eq!(p.next_non_ws_token(), None);
}

#[test]
fn characters_can_be_peeked_read_and_handed_back() {
    let mut p = Parser::new("ab");
    assert_eq!(p.peek_char(), Some('a'));
    assert_eq!(p.next_char(), Some('a'));
    p.unnext_char(Some('z'));
    assert_eq!(p.peek_char(), Some('z'));
    assert_eq!(p.next_char(), Some('z'));
    assert_eq!(p.next_char(), Some('b'));
    p.unnext_char(None);
    assert_eq!(p.next_char(), None);
}

#[test]
fn try_next_char_reads_only_what_the_callback_accepts() {
    let mut p = Parser::new("a1");
    assert!(!p.try_next_char(|c| c.is_ascii_digit()));
    assert!(p.try_next_char(|c| c == 'a'));
    assert!(p.try_next_char(|c| c.is_ascii_digit()));
    assert!(!p.try_next_char(|_| true));
}

#[test]
fn handed_back_character_starts_the_next_token() {
    let mut p = Parser::new("bc");
    p.unnext_char(Some('a'));
    assert_eq!(p.next_token(), Some(Token::Ident(String::from("abc"))));
    assert_eq!(p.next_token(), None);
}

#[test]
fn tokens_equal_compares_kind_and_text() {
    assert!(tokens_equal(&Token::Semicolon, &Token::Semicolon));
    assert!(!tokens_equal(&Token::Semicolon, &Token::Equals));
    assert!(tokens_equal(&Token::Ident(String::from("a")), &Token::Ident(String::from("a"))));
    assert!(!tokens_equal(&Token::Ident(String::from("a")), &Token::Ident(String::from("b"))));
    assert!(!tokens_equal(&Token::Ident(String::from("1")), &Token::Number(String::from("1"))));
}
