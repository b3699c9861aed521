use protogen::decimal::{parse_u32, push_decimal};
use protogen::framing::find_struct_bounds;
use protogen::lexis::{
    char_in_class, char_is_digit, char_is_ident_start, class_test, punctuation_token,
    token_start_of, CharClass, TokenStart,
};
use protogen::parser::Token;
use protogen::text::chars_of;
use std::path::Path;

#[test]
fn numerals_are_read_exactly() {
    assert_eq!(parse_u32("0"), Some(0));
    assert_eq!(parse_u32("12348"), Some(12348));
    assert_eq!(parse_u32("0000000000000000000042"), Some(42));
    assert_eq!(parse_u32("4294967295"), Some(4294967295));
    assert_eq!(parse_u32("4294967296"), None);
    assert_eq!(parse_u32("99999999999999999999"), None);
    assert_eq!(parse_u32(""), None);
    assert_eq!(parse_u32("12a"), None);
    assert_eq!(parse_u32("-1"), None);
    assert_eq!(parse_u32("\u{663}"), None);
}

#[test]
fn numbers_are_written_without_leading_zeros() {
    let mut s = String::from("n=");
    push_decimal(&mut s, 0);
    push_decimal(&mut s, 9);
    push_decimal(&mut s, 10);
    push_decimal(&mut s, 4294967295);
    assert_eq!(s, "n=09104294967295");
}

#[test]
fn written_numbers_read_back() {
    for n in [0u32, 1, 9, 10, 99, 100, 65535, 65536, 4294967294, 4294967295] {
        let mut s = String::new();
        push_decimal(&mut s, n);
        assert_eq!(s, format!("{n}"));
        assert_eq!(parse_u32(&s), Some(n));
    }
}

#[test]
fn struct_bounds_end_at_the_first_closing_brace() {
    assert_eq!(find_struct_bounds(b"{}"), Some(2));
    assert_eq!(find_struct_bounds(b"{\"msg_id\":\"Input\"}rest}"), Some(18));
    assert_eq!(find_struct_bounds(b"{{}}"), Some(3));
}

#[test]
fn struct_bounds_need_an_opening_and_a_closing_brace() {
    assert_eq!(find_struct_bounds(b""), None);
    assert_eq!(find_struct_bounds(b"{"), None);
    assert_eq!(find_struct_bounds(b"{abc"), None);
    assert_eq!(find_struct_bounds(b"}"), None);
    assert_eq!(find_struct_bounds(b" {}"), None);
    assert_eq!(find_struct_bounds(b"}{"), None);
}

#[test]
fn character_classes() {
    assert!(char_is_digit('0') && char_is_digit('9') && !char_is_digit('a') && !char_is_digit('/'));
    assert!(char_is_ident_start('a') && char_is_ident_start('Z') && char_is_ident_start('_'));
    assert!(!char_is_ident_start('1') && !char_is_ident_start('-') && !char_is_ident_start('\u{e9}'));
    assert!(char_in_class(CharClass::IdentPart, '7') && !char_in_class(CharClass::IdentPart, ' '));
    assert!(char_in_class(CharClass::Digit, '7') && !char_in_class(CharClass::Digit, 'x'));
    assert!(char_in_class(CharClass::Space, '\t') && !char_in_class(CharClass::Space, 'x'));
    assert!(char_in_class(CharClass::NotLineEnd, 'x') && !char_in_class(CharClass::NotLineEnd, '\n'));
}

#[test]
fn first_character_decides_the_kind_of_token() {
    assert_eq!(token_start_of('a', false), TokenStart::Identifier);
    assert_eq!(token_start_of('_', false), TokenStart::Identifier);
    assert_eq!(token_start_of('/', false), TokenStart::Slash);
    assert_eq!(token_start_of('5', false), TokenStart::Number);
    assert_eq!(token_start_of(';', false), TokenStart::Punctuation);
    assert_eq!(token_start_of('"', true), TokenStart::Punctuation);
    assert_eq!(token_start_of(' ', true), TokenStart::Whitespace);
    assert_eq!(token_start_of(' ', false), TokenStart::Unknown);
    assert_eq!(token_start_of('#', false), TokenStart::Unknown);
}

#[test]
fn class_of_a_character_given_its_whitespace_property() {
    assert!(class_test(CharClass::Space, 'x', true));
    assert!(!class_test(CharClass::Space, ' ', false));
    assert!(class_test(CharClass::IdentPart, 'x', true));
    assert!(!class_test(CharClass::Digit, 'x', true));
    assert!(!class_test(CharClass::NotLineEnd, '\n', true));
}

#[test]
fn punctuation_characters_make_tokens() {
    assert_eq!(punctuation_token(';'), Some(Token::Semicolon));
    assert_eq!(punctuation_token('{'), Some(Token::BraceOpen));
    assert_eq!(punctuation_token('}'), Some(Token::BraceClose));
    assert_eq!(punctuation_token('('), Some(Token::ParensOpen));
    assert_eq!(punctuation_token(')'), Some(Token::ParensClose));
    assert_eq!(punctuation_token('"'), Some(Token::Quote));
    assert_eq!(punctuation_token('='), Some(Token::Equals));
    assert_eq!(punctuation_token(','), None);
    assert_eq!(punctuation_token('a'), None);
}

#[test]
fn characters_of_a_text() {
    assert_eq!(chars_of("a\u{e9}\n"), vec!['a', '\u{e9}', '\n']);
    assert_eq!(chars_of(""), Vec::<char>::new());
}

// Used to build the file path. Verify it will work as expected.
#[test]
fn test_stem() {
    let p = Path::new("dir/f.stem");
    let dir = Path::new("csharp/");
    let new = dir.join(p.file_stem().unwrap());
    assert_eq!(new.as_os_str().to_str().unwrap(), "csharp/f")
}
