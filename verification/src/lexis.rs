//! The lexical structure of the schema language, stated over sequences of
//! characters.

use crate::parser::{Token, TokenView};
use crate::text::is_white_space;
use vstd::prelude::*;

verus! {

/// The character that ends a line.
pub const LINE_END: char = '\n';

/// A decimal digit.
pub open spec fn is_digit(c: char) -> bool {
    '0' <= c <= '9'
}

/// A character that an identifier can start with: a letter or an
/// underscore.
pub open spec fn is_ident_start(c: char) -> bool {
    ('a' <= c <= 'z') || ('A' <= c <= 'Z') || c == '_'
}

/// A character that an identifier can go on with: a letter, a digit or an
/// underscore.
pub open spec fn is_ident_part(c: char) -> bool {
    is_ident_start(c) || is_digit(c)
}

/// The classes of characters that a token is a maximal run of.
#[derive(Clone, Copy, PartialEq, Eq, Debug, Structural)]
pub enum CharClass {
    IdentPart,
    Digit,
    Space,
    NotLineEnd,
}

/// Whether the character belongs to the class, where `white` says whether
/// it is whitespace.
pub open spec fn class_holds(class: CharClass, c: char, white: bool) -> bool {
    match class {
        CharClass::IdentPart => is_ident_part(c),
        CharClass::Digit => is_digit(c),
        CharClass::Space => white,
        CharClass::NotLineEnd => c != LINE_END,
    }
}

/// Whether the character belongs to the class.
pub open spec fn class_has(class: CharClass, c: char) -> bool {
    class_holds(class, c, is_white_space(c))
}

/// What a token's first character says of the token.
#[derive(Clone, Copy, PartialEq, Eq, Debug, Structural)]
pub enum TokenStart {
    Identifier,
    Slash,
    Number,
    Punctuation,
    Whitespace,
    Unknown,
}

/// Whether the character is a decimal digit.
pub fn char_is_digit(c: char) -> (b: bool)
    ensures
        b == is_digit(c),
{
    '0' <= c && c <= '9'
}

/// Whether an identifier can start with the character.
pub fn char_is_ident_start(c: char) -> (b: bool)
    ensures
        b == is_ident_start(c),
{
    ('a' <= c && c <= 'z') || ('A' <= c && c <= 'Z') || c == '_'
}

/// The token of a punctuation character.
pub fn punctuation_token(c: char) -> (tok: Option<Token>)
    ensures
        crate::parser::token_opt_view(tok) == punctuation(c),
{
    if c == ';' {
        Some(Token::Semicolon)
    } else if c == '{' {
        Some(Token::BraceOpen)
    } else if c == '}' {
        Some(Token::BraceClose)
    } else if c == '(' {
        Some(Token::ParensOpen)
    } else if c == ')' {
        Some(Token::ParensClose)
    } else if c == '"' {
        Some(Token::Quote)
    } else if c == '=' {
        Some(Token::Equals)
    } else {
        None
    }
}

/// Whether the character belongs to the class, where `white` says whether
/// it is whitespace.
pub fn class_test(class: CharClass, c: char, white: bool) -> (b: bool)
    ensures
        b == class_holds(class, c, white),
{
    match class {
        CharClass::IdentPart => char_is_ident_start(c) || char_is_digit(c),
        CharClass::Digit => char_is_digit(c),
        CharClass::Space => white,
        CharClass::NotLineEnd => c != LINE_END,
    }
}

/// Whether the character belongs to the class.
pub fn char_in_class(class: CharClass, c: char) -> (b: bool)
    ensures
        b == class_has(class, c),
{
    class_test(class, c, c.is_whitespace())
}

/// What kind of token starts with `c`, where `white` says whether `c` is
/// whitespace. The kinds are tried in this order: identifier, comment,
/// number, punctuation, whitespace.
pub open spec fn token_start(c: char, white: bool) -> TokenStart {
    if is_ident_start(c) {
        TokenStart::Identifier
    } else if c == '/' {
        TokenStart::Slash
    } else if is_digit(c) {
        TokenStart::Number
    } else if punctuation(c) is Some {
        TokenStart::Punctuation
    } else if white {
        TokenStart::Whitespace
    } else {
        TokenStart::Unknown
    }
}

/// What kind of token starts with `c`, where `white` says whether `c` is
/// whitespace.
pub fn token_start_of(c: char, white: bool) -> (start: TokenStart)
    ensures
        start == token_start(c, white),
{
    if char_is_ident_start(c) {
        TokenStart::Identifier
    } else if c == '/' {
        TokenStart::Slash
    } else if char_is_digit(c) {
        TokenStart::Number
    } else if punctuation_token(c).is_some() {
        TokenStart::Punctuation
    } else if white {
        TokenStart::Whitespace
    } else {
        TokenStart::Unknown
    }
}

/// The first position at or after `from` that holds no character of
/// `class`, or the length of `s` when there is none.
pub open spec fn run_end(s: Seq<char>, from: int, class: CharClass) -> int
    decreases s.len() - from,
{
    if from < 0 || from >= s.len() || !class_has(class, s[from]) {
        from
    } else {
        run_end(s, from + 1, class)
    }
}

/// The first position at or after `from` that holds `*` directly followed
/// by `/`, or the length of `s` when there is none.
pub open spec fn block_end(s: Seq<char>, from: int) -> int
    decreases s.len() - from,
{
    if from < 0 || from >= s.len() {
        s.len() as int
    } else if closes_block(s, from) {
        from
    } else {
        block_end(s, from + 1)
    }
}

/// Whether a block comment's closing `*/` starts at position `i`.
pub open spec fn closes_block(s: Seq<char>, i: int) -> bool {
    0 <= i && i + 1 < s.len() && s[i] == '*' && s[i + 1] == '/'
}

/// A run ends exactly where the first character outside the class stands.
pub proof fn lemma_run_end(s: Seq<char>, from: int, class: CharClass, end: int)
    requires
        0 <= from <= end <= s.len(),
        forall|i: int| from <= i < end ==> class_has(class, s[i]),
        end < s.len() ==> !class_has(class, s[end]),
    ensures
        run_end(s, from, class) == end,
    decreases end - from,
{
    if from < end {
        lemma_run_end(s, from + 1, class, end);
    }
}

/// Where a run ends: inside the sequence, behind characters of the class
/// only, and in front of one that is not of the class.
pub proof fn lemma_run_end_is_end(s: Seq<char>, from: int, class: CharClass)
    requires
        0 <= from <= s.len(),
    ensures
        from <= run_end(s, from, class) <= s.len(),
        forall|i: int| from <= i < run_end(s, from, class) ==> class_has(class, s[i]),
        run_end(s, from, class) < s.len() ==> !class_has(class, s[run_end(s, from, class)]),
    decreases s.len() - from,
{
    if from < s.len() && class_has(class, s[from]) {
        lemma_run_end_is_end(s, from + 1, class);
    }
}

/// A block ends exactly at the first `*/`.
pub proof fn lemma_block_end(s: Seq<char>, from: int, end: int)
    requires
        0 <= from <= end <= s.len(),
        forall|i: int| from <= i < end ==> !closes_block(s, i),
        end < s.len() ==> closes_block(s, end),
    ensures
        block_end(s, from) == end,
    decreases end - from,
{
    if from < end {
        lemma_block_end(s, from + 1, end);
    }
}

/// Where a block ends: at a `*/`, or at the end of the sequence, with no
/// `*/` before it.
pub proof fn lemma_block_end_is_end(s: Seq<char>, from: int)
    requires
        0 <= from <= s.len(),
    ensures
        from <= block_end(s, from) <= s.len(),
        forall|i: int| from <= i < block_end(s, from) ==> !closes_block(s, i),
        block_end(s, from) < s.len() ==> closes_block(s, block_end(s, from)),
    decreases s.len() - from,
{
    if from < s.len() && !closes_block(s, from) {
        lemma_block_end_is_end(s, from + 1);
    }
}

/// One token, as the lexer reads it behind a first character.
pub struct Lexeme {
    /// The token.
    pub token: TokenView,
    /// The position in the input behind the last character that belongs to
    /// the token or is dropped with it.
    pub end: int,
    /// Whether the character at `end` was read as well and handed back.
    pub lookahead: bool,
}

/// The token that starts with `/`, where the characters of `input` from
/// position `from` on follow it.
pub open spec fn slash_lexeme(input: Seq<char>, from: int) -> Lexeme {
    if from >= input.len() {
        Lexeme { token: TokenView::Error("Unexpected char"@), end: from, lookahead: false }
    } else if input[from] == '/' {
        // A line comment runs to the end of the line; the line end is
        // dropped with it.
        let e = run_end(input, from + 1, CharClass::NotLineEnd);
        Lexeme {
            token: TokenView::Comment(seq!['/'] + input.subrange(from, e)),
            end: if e < input.len() {
                e + 1
            } else {
                e
            },
            lookahead: false,
        }
    } else if input[from] == '*' {
        // A block comment runs through the first `*/` behind its opening.
        let e = block_end(input, from + 1);
        if e < input.len() {
            Lexeme {
                token: TokenView::Comment(seq!['/'] + input.subrange(from, e + 2)),
                end: e + 2,
                lookahead: false,
            }
        } else {
            Lexeme {
                token: TokenView::Error("Expected /"@),
                end: input.len() as int,
                lookahead: false,
            }
        }
    } else {
        Lexeme { token: TokenView::Error("Expected /"@), end: from + 1, lookahead: false }
    }
}

/// The token that a punctuation character makes.
pub open spec fn punctuation(c: char) -> Option<TokenView> {
    if c == ';' {
        Some(TokenView::Semicolon)
    } else if c == '{' {
        Some(TokenView::BraceOpen)
    } else if c == '}' {
        Some(TokenView::BraceClose)
    } else if c == '(' {
        Some(TokenView::ParensOpen)
    } else if c == ')' {
        Some(TokenView::ParensClose)
    } else if c == '"' {
        Some(TokenView::Quote)
    } else if c == '=' {
        Some(TokenView::Equals)
    } else {
        None
    }
}

/// The token that starts with `first`, where the characters of `input` from
/// position `from` on follow it. The classes are tried in this order:
/// identifier, comment, number, punctuation, whitespace; any other character
/// is an error token. An identifier, a number and a run of whitespace are
/// maximal: the character that ends the run, if there is one, is read and
/// handed back.
pub open spec fn scan(first: char, input: Seq<char>, from: int) -> Lexeme {
    match token_start(first, is_white_space(first)) {
        TokenStart::Identifier => {
            let e = run_end(input, from, CharClass::IdentPart);
            Lexeme {
                token: TokenView::Ident(seq![first] + input.subrange(from, e)),
                end: e,
                lookahead: e < input.len(),
            }
        },
        TokenStart::Slash => slash_lexeme(input, from),
        TokenStart::Number => {
            let e = run_end(input, from, CharClass::Digit);
            Lexeme {
                token: TokenView::Number(seq![first] + input.subrange(from, e)),
                end: e,
                lookahead: e < input.len(),
            }
        },
        TokenStart::Punctuation => Lexeme {
            token: punctuation(first)->0,
            end: from,
            lookahead: false,
        },
        TokenStart::Whitespace => {
            let e = run_end(input, from, CharClass::Space);
            Lexeme { token: TokenView::Whitespace, end: e, lookahead: e < input.len() }
        },
        TokenStart::Unknown => Lexeme {
            token: TokenView::Error("Unexpected char"@),
            end: from,
            lookahead: false,
        },
    }
}

/// A token ends inside the input, at or behind the position at which it was
/// scanned, and looks ahead only where a character is left.
pub proof fn lemma_scan_bounds(first: char, input: Seq<char>, from: int)
    requires
        0 <= from <= input.len(),
    ensures
        from <= scan(first, input, from).end <= input.len(),
        scan(first, input, from).lookahead ==> scan(first, input, from).end < input.len(),
{
    lemma_run_end_is_end(input, from, CharClass::IdentPart);
    lemma_run_end_is_end(input, from, CharClass::Digit);
    lemma_run_end_is_end(input, from, CharClass::Space);
    if from < input.len() {
        lemma_run_end_is_end(input, from + 1, CharClass::NotLineEnd);
        lemma_block_end_is_end(input, from + 1);
    }
}

/// An identifier token holds the identifier in full: it starts with a
/// letter or an underscore, goes on with letters, digits and underscores,
/// and the character behind it, if there is one, is none of these.
pub proof fn lemma_scan_identifier(first: char, input: Seq<char>, from: int)
    requires
        0 <= from <= input.len(),
        scan(first, input, from).token is Ident,
    ensures
        ({
            let lexeme = scan(first, input, from);
            let text = lexeme.token->Ident_0;
            &&& text.len() == 1 + lexeme.end - from
            &&& text[0] == first
            &&& is_ident_start(first)
            &&& forall|i: int| 0 <= i < text.len() ==> is_ident_part(#[trigger] text[i])
            &&& forall|i: int| 1 <= i < text.len() ==> text[i] == input[from + i - 1]
            &&& lexeme.end < input.len() ==> !is_ident_part(input[lexeme.end])
            &&& lexeme.lookahead == (lexeme.end < input.len())
        }),
{
    lemma_run_end_is_end(input, from, CharClass::IdentPart);
    if first == '/' {
        if from < input.len() {
            lemma_run_end_is_end(input, from + 1, CharClass::NotLineEnd);
            lemma_block_end_is_end(input, from + 1);
        }
    }
}

/// A number token holds a maximal run of decimal digits.
pub proof fn lemma_scan_number(first: char, input: Seq<char>, from: int)
    requires
        0 <= from <= input.len(),
        scan(first, input, from).token is Number,
    ensures
        ({
            let lexeme = scan(first, input, from);
            let text = lexeme.token->Number_0;
            &&& text.len() == 1 + lexeme.end - from
            &&& forall|i: int| 0 <= i < text.len() ==> is_digit(#[trigger] text[i])
            &&& forall|i: int| 1 <= i < text.len() ==> text[i] == input[from + i - 1]
            &&& lexeme.end < input.len() ==> !is_digit(input[lexeme.end])
            &&& lexeme.lookahead == (lexeme.end < input.len())
        }),
{
    lemma_run_end_is_end(input, from, CharClass::Digit);
    lemma_run_end_is_end(input, from, CharClass::IdentPart);
    if first == '/' {
        if from < input.len() {
            lemma_run_end_is_end(input, from + 1, CharClass::NotLineEnd);
            lemma_block_end_is_end(input, from + 1);
        }
    }
}

/// A comment token holds either a line comment, which starts with `//` and
/// holds no line end, or a block comment, which starts with `/*` and ends
/// with the first `*/` behind that.
pub proof fn lemma_scan_comment(first: char, input: Seq<char>, from: int)
    requires
        0 <= from <= input.len(),
        scan(first, input, from).token is Comment,
    ensures
        ({
            let lexeme = scan(first, input, from);
            let text = lexeme.token->Comment_0;
            &&& first == '/'
            &&& text.len() >= 2
            &&& text[0] == '/'
            &&& forall|i: int| 1 <= i < text.len() ==> text[i] == input[from + i - 1]
            &&& text[1] == '/' || text[1] == '*'
            &&& text[1] == '/' ==> forall|i: int| 2 <= i < text.len() ==> text[i] != LINE_END
            &&& text[1] == '*' ==> text.len() >= 4 && closes_block(text, text.len() - 2)
                && forall|i: int| 2 <= i < text.len() - 2 ==> !#[trigger] closes_block(text, i)
            &&& !lexeme.lookahead
        }),
{
    lemma_run_end_is_end(input, from, CharClass::IdentPart);
    lemma_run_end_is_end(input, from, CharClass::Digit);
    if from < input.len() {
        lemma_run_end_is_end(input, from + 1, CharClass::NotLineEnd);
        lemma_block_end_is_end(input, from + 1);
        let e = block_end(input, from + 1);
        if input[from] == '*' && e < input.len() {
            let text = seq!['/'] + input.subrange(from, e + 2);
            assert forall|i: int| 2 <= i < text.len() - 2 implies !#[trigger] closes_block(
                text,
                i,
            ) by {
                assert(!closes_block(input, from + i - 1));
            }
        }
    }
}

/// The number of line ends in `s`.
pub open spec fn line_count(s: Seq<char>) -> int
    decreases s.len(),
{
    if s.len() == 0 {
        0
    } else if s.last() == LINE_END {
        line_count(s.drop_last()) + 1
    } else {
        line_count(s.drop_last())
    }
}

/// The number of characters of `s` from its last line end on, that line end
/// counted; the length of `s` where it holds none.
pub open spec fn column_count(s: Seq<char>) -> int
    decreases s.len(),
{
    if s.len() == 0 {
        0
    } else if s.last() == LINE_END {
        1
    } else {
        column_count(s.drop_last()) + 1
    }
}

/// Neither counter exceeds the number of characters counted.
pub proof fn lemma_counts_bounded(s: Seq<char>)
    ensures
        0 <= line_count(s) <= s.len(),
        0 <= column_count(s) <= s.len(),
    decreases s.len(),
{
    if s.len() > 0 {
        lemma_counts_bounded(s.drop_last());
    }
}

} // verus!
