//! The grammar, as functions from the parser's state to what is parsed and
//! the state behind it. Parsing stops at the first error.

use crate::cursor::{lemma_significant_consumes, lemma_token_consumes, ParserView};
use crate::decimal::decimal_u32;
use crate::intern::{lemma_intern_extends, StringId};
use crate::parser::{
    Expected, Field, FieldType, LocationView, MessageView, ParseErrorKindView, ParseErrorView,
    ParseTreeView, Rpc, ServiceView, TokenView, TopLevelParseView,
};
use crate::tree::{
    field_ok, lemma_message_ok_grows, lemma_service_ok_grows, message_ok, rpc_ok, service_ok,
};
use crate::validate::validation;
use vstd::prelude::*;

verus! {

/// The error for a token that the grammar does not admit where it stands.
/// An error token of the lexer is reported as a lexical error.
pub open spec fn mismatch(
    st: ParserView,
    expected: Expected,
    actual: Option<TokenView>,
) -> ParseErrorView {
    ParseErrorView {
        kind: match actual {
            Some(TokenView::Error(text)) => ParseErrorKindView::LexError(text),
            _ => ParseErrorKindView::UnexpectedToken(expected, actual),
        },
        location: LocationView::Source { line: st.line(), column: st.column() },
    }
}

/// The next significant token must be `want`.
pub open spec fn expect(st: ParserView, want: TokenView, expected: Expected) -> (
    Result<(), ParseErrorView>,
    ParserView,
) {
    let (tok, st1) = st.after_significant();
    if tok == Some(want) {
        (Ok(()), st1)
    } else {
        (Err(mismatch(st1, expected, tok)), st1)
    }
}

/// The next significant token must be an identifier, which is interned.
pub open spec fn expect_name(st: ParserView) -> (Result<StringId, ParseErrorView>, ParserView) {
    let (tok, st1) = st.after_significant();
    match tok {
        Some(TokenView::Ident(text)) => {
            let (id, st2) = st1.intern(text);
            (Ok(id), st2)
        },
        _ => (Err(mismatch(st1, Expected::Name, tok)), st1),
    }
}

/// `( <Name> )`
pub open spec fn parenthesized_name(st: ParserView) -> (
    Result<StringId, ParseErrorView>,
    ParserView,
) {
    let (open, st1) = expect(st, TokenView::ParensOpen, Expected::ParensOpen);
    match open {
        Err(e) => (Err(e), st1),
        Ok(_) => {
            let (name, st2) = expect_name(st1);
            match name {
                Err(e) => (Err(e), st2),
                Ok(id) => {
                    let (close, st3) = expect(st2, TokenView::ParensClose, Expected::ParensClose);
                    match close {
                        Err(e) => (Err(e), st3),
                        Ok(_) => (Ok(id), st3),
                    }
                },
            }
        },
    }
}

/// The pragma behind its keyword `syntax`: `= "proto3" ;`, where the version
/// stands directly behind the opening quote.
pub open spec fn syntax_statement(st: ParserView) -> (
    Result<TopLevelParseView, ParseErrorView>,
    ParserView,
) {
    let (equals, st1) = expect(st, TokenView::Equals, Expected::Equals);
    match equals {
        Err(e) => (Err(e), st1),
        Ok(_) => {
            let (quote, st2) = expect(st1, TokenView::Quote, Expected::Quote);
            match quote {
                Err(e) => (Err(e), st2),
                Ok(_) => {
                    let (version, st3) = st2.after_token();
                    if version != Some(TokenView::Ident("proto3"@)) {
                        (Err(mismatch(st3, Expected::Version, version)), st3)
                    } else {
                        let (quote, st4) = expect(st3, TokenView::Quote, Expected::Quote);
                        match quote {
                            Err(e) => (Err(e), st4),
                            Ok(_) => {
                                let (semi, st5) = expect(
                                    st4,
                                    TokenView::Semicolon,
                                    Expected::Semicolon,
                                );
                                match semi {
                                    Err(e) => (Err(e), st5),
                                    Ok(_) => (Ok(TopLevelParseView::SyntaxStatement), st5),
                                }
                            },
                        }
                    }
                },
            }
        },
    }
}

/// An rpc behind its keyword `rpc`:
/// `<Name> ( <ArgTypeName> ) returns ( <RetTypeName> ) ;`
pub open spec fn rpc(st: ParserView) -> (Result<Rpc, ParseErrorView>, ParserView) {
    let (name, st1) = expect_name(st);
    match name {
        Err(e) => (Err(e), st1),
        Ok(name) => {
            let (arg, st2) = parenthesized_name(st1);
            match arg {
                Err(e) => (Err(e), st2),
                Ok(arg_type) => {
                    let (tok, st3) = st2.after_significant();
                    if tok != Some(TokenView::Ident("returns"@)) {
                        (Err(mismatch(st3, Expected::ReturnsKeyword, tok)), st3)
                    } else {
                        let (ret, st4) = parenthesized_name(st3);
                        match ret {
                            Err(e) => (Err(e), st4),
                            Ok(ret_type) => {
                                let (semi, st5) = expect(
                                    st4,
                                    TokenView::Semicolon,
                                    Expected::Semicolon,
                                );
                                match semi {
                                    Err(e) => (Err(e), st5),
                                    Ok(_) => (Ok(Rpc { name, arg_type, ret_type }), st5),
                                }
                            },
                        }
                    }
                },
            }
        },
    }
}

/// The rest of a service body, where `service` holds what was parsed of it:
/// rpcs up to the closing brace.
pub open spec fn service_body(st: ParserView, service: ServiceView) -> (
    Result<ServiceView, ParseErrorView>,
    ParserView,
)
    decreases st.remaining().len(),
    when st.wf()
{
    let (tok, st1) = st.after_significant();
    if tok == Some(TokenView::BraceClose) {
        (Ok(service), st1)
    } else if tok == Some(TokenView::Ident("rpc"@)) {
        let (parsed, st2) = rpc(st1);
        match parsed {
            Err(e) => (Err(e), st2),
            Ok(r) => {
                proof {
                    lemma_significant_consumes(st);
                    lemma_rpc_follows(st1);
                }
                service_body(st2, ServiceView { rpcs: service.rpcs.push(r), ..service })
            },
        }
    } else {
        (Err(mismatch(st1, Expected::RpcOrBraceClose, tok)), st1)
    }
}

/// A service behind its keyword `service`: `<Name> { ... }`
pub open spec fn service(st: ParserView) -> (Result<TopLevelParseView, ParseErrorView>, ParserView) {
    let (name, st1) = expect_name(st);
    match name {
        Err(e) => (Err(e), st1),
        Ok(name) => {
            let (open, st2) = expect(st1, TokenView::BraceOpen, Expected::BraceOpen);
            match open {
                Err(e) => (Err(e), st2),
                Ok(_) => {
                    let (body, st3) = service_body(
                        st2,
                        ServiceView { name, rpcs: Seq::empty() },
                    );
                    match body {
                        Err(e) => (Err(e), st3),
                        Ok(s) => (Ok(TopLevelParseView::Service(s)), st3),
                    }
                },
            }
        },
    }
}

/// The scalar type that a reserved type name stands for.
pub open spec fn scalar_type(name: Seq<char>) -> Option<FieldType> {
    if name == "int32"@ {
        Some(FieldType::Int32)
    } else if name == "int64"@ {
        Some(FieldType::Int64)
    } else if name == "uint32"@ {
        Some(FieldType::Uint32)
    } else if name == "uint64"@ {
        Some(FieldType::Uint64)
    } else if name == "string"@ {
        Some(FieldType::String)
    } else {
        None
    }
}

/// A field behind its type name: `<Name> = <Tag> ;`. A type name that is
/// not reserved is interned and recorded as a reference, to be resolved
/// when the whole tree is there.
pub open spec fn field_of_type(st: ParserView, ty_name: Seq<char>) -> (
    Result<Field, ParseErrorView>,
    ParserView,
) {
    let (ftype, st0) = match scalar_type(ty_name) {
        Some(t) => (t, st),
        None => {
            let (id, st0) = st.intern(ty_name);
            (FieldType::Message(id), st0)
        },
    };
    let (name, st1) = expect_name(st0);
    match name {
        Err(e) => (Err(e), st1),
        Ok(name) => {
            let (equals, st2) = expect(st1, TokenView::Equals, Expected::Equals);
            match equals {
                Err(e) => (Err(e), st2),
                Ok(_) => {
                    let (tok, st3) = st2.after_significant();
                    match tok {
                        Some(TokenView::Number(digits)) => match decimal_u32(digits) {
                            Some(idx) => {
                                let (semi, st4) = expect(
                                    st3,
                                    TokenView::Semicolon,
                                    Expected::Semicolon,
                                );
                                match semi {
                                    Err(e) => (Err(e), st4),
                                    Ok(_) => (Ok(Field { name, idx, ftype, optional: false }), st4),
                                }
                            },
                            None => (Err(mismatch(st3, Expected::FieldTag, tok)), st3),
                        },
                        _ => (Err(mismatch(st3, Expected::FieldTag, tok)), st3),
                    }
                },
            }
        },
    }
}

/// A field behind the modifier `optional`: its type name, then the field,
/// which is marked optional.
pub open spec fn optional_field(st: ParserView) -> (Result<Field, ParseErrorView>, ParserView) {
    let (tok, st1) = st.after_significant();
    match tok {
        Some(TokenView::Ident(ty_name)) => {
            let (field, st2) = field_of_type(st1, ty_name);
            match field {
                Err(e) => (Err(e), st2),
                Ok(f) => (Ok(Field { optional: true, ..f }), st2),
            }
        },
        _ => (Err(mismatch(st1, Expected::Name, tok)), st1),
    }
}

/// A message behind its keyword `message`: `<Name> { ... }`
pub open spec fn message(st: ParserView) -> (Result<MessageView, ParseErrorView>, ParserView)
    decreases st.remaining().len(), 1int,
    when st.wf()
{
    let (name, st1) = expect_name(st);
    match name {
        Err(e) => (Err(e), st1),
        Ok(name) => {
            let (open, st2) = expect(st1, TokenView::BraceOpen, Expected::BraceOpen);
            match open {
                Err(e) => (Err(e), st2),
                Ok(_) => {
                    proof {
                        lemma_expect_name_follows(st);
                        lemma_expect_follows(st1, TokenView::BraceOpen, Expected::BraceOpen);
                    }
                    message_body(
                        st2,
                        MessageView {
                            name,
                            fields: Seq::empty(),
                            messages: Seq::empty(),
                            enums: Seq::empty(),
                        },
                    )
                },
            }
        },
    }
}

/// The rest of a message body, where `message` holds what was parsed of it:
/// nested messages and fields up to the closing brace. A nested message
/// takes at least its name from the input, so the body goes on with less
/// input than it had.
pub open spec fn message_body(st: ParserView, msg: MessageView) -> (
    Result<MessageView, ParseErrorView>,
    ParserView,
)
    decreases st.remaining().len(), 0int,
    when st.wf()
{
    let (tok, st1) = st.after_significant();
    match tok {
        Some(TokenView::BraceClose) => (Ok(msg), st1),
        Some(TokenView::Ident(word)) => {
            proof {
                lemma_significant_consumes(st);
            }
            if word == "message"@ {
                let (nested, st2) = message(st1);
                match nested {
                    Err(e) => (Err(e), st2),
                    Ok(m) => if st2.remaining().len() < st.remaining().len() {
                        message_body(st2, MessageView { messages: msg.messages.push(m), ..msg })
                    } else {
                        (Ok(msg), st2)
                    },
                }
            } else {
                let (field, st2) = if word == "optional"@ {
                    optional_field(st1)
                } else {
                    field_of_type(st1, word)
                };
                match field {
                    Err(e) => (Err(e), st2),
                    Ok(f) => {
                        proof {
                            lemma_optional_field_follows(st1);
                            lemma_field_follows(st1, word);
                        }
                        message_body(st2, MessageView { fields: msg.fields.push(f), ..msg })
                    },
                }
            }
        },
        _ => (Err(mismatch(st1, Expected::MemberOrBraceClose, tok)), st1),
    }
}

/// The next top-level item: dispatched on its keyword; `None` at the end of
/// the input.
pub open spec fn top_level(st: ParserView) -> (
    Option<Result<TopLevelParseView, ParseErrorView>>,
    ParserView,
) {
    let (tok, st1) = st.after_significant();
    match tok {
        None => (None, st1),
        Some(TokenView::Ident(word)) => {
            if word == "syntax"@ {
                let (r, st2) = syntax_statement(st1);
                (Some(r), st2)
            } else if word == "service"@ {
                let (r, st2) = service(st1);
                (Some(r), st2)
            } else if word == "message"@ {
                let (r, st2) = message(st1);
                (
                    Some(
                        match r {
                            Ok(m) => Ok(TopLevelParseView::Message(m)),
                            Err(e) => Err(e),
                        },
                    ),
                    st2,
                )
            } else {
                (Some(Err(mismatch(st1, Expected::TopLevelKeyword, tok))), st1)
            }
        },
        _ => (Some(Err(mismatch(st1, Expected::TopLevelKeyword, tok))), st1),
    }
}

/// `later` is a state that parsing can reach from `st`: the same input, no
/// more of it left, and a table that extends the one of `st`.
pub open spec fn follows(st: ParserView, later: ParserView) -> bool {
    &&& later.wf()
    &&& later.input == st.input
    &&& later.remaining().len() <= st.remaining().len()
    &&& st.strings.is_prefix_of(later.strings)
}

/// Expecting a token leads to a state that follows, with less input left
/// where the token was the expected one.
pub proof fn lemma_expect_follows(st: ParserView, want: TokenView, expected: Expected)
    requires
        st.wf(),
    ensures
        follows(st, expect(st, want, expected).1),
        expect(st, want, expected).0 is Ok ==> expect(st, want, expected).1.remaining().len()
            < st.remaining().len(),
{
    lemma_significant_consumes(st);
}

/// Interning leads to a state that follows, with the same input left and
/// the handle inside the new table.
pub proof fn lemma_intern_follows(st: ParserView, text: Seq<char>)
    requires
        st.wf(),
    ensures
        follows(st, st.intern(text).1),
        st.intern(text).1.remaining() == st.remaining(),
        0 <= st.intern(text).0 < st.intern(text).1.strings.len() || st.intern(text).1.strings.len()
            > usize::MAX,
{
    lemma_intern_extends(st.strings, text);
}

/// Expecting a name leads to a state that follows, with less input left
/// where a name was found.
pub proof fn lemma_expect_name_follows(st: ParserView)
    requires
        st.wf(),
    ensures
        follows(st, expect_name(st).1),
        expect_name(st).0 is Ok ==> expect_name(st).1.remaining().len() < st.remaining().len(),
{
    lemma_significant_consumes(st);
    let (tok, st1) = st.after_significant();
    if let Some(TokenView::Ident(text)) = tok {
        lemma_intern_follows(st1, text);
    }
}

/// Parsing a parenthesised name leads to a state that follows.
pub proof fn lemma_parenthesized_follows(st: ParserView)
    requires
        st.wf(),
    ensures
        follows(st, parenthesized_name(st).1),
{
    lemma_expect_follows(st, TokenView::ParensOpen, Expected::ParensOpen);
    let st1 = expect(st, TokenView::ParensOpen, Expected::ParensOpen).1;
    lemma_expect_name_follows(st1);
    let st2 = expect_name(st1).1;
    lemma_expect_follows(st2, TokenView::ParensClose, Expected::ParensClose);
}

/// Parsing the syntax pragma leads to a state that follows.
pub proof fn lemma_syntax_follows(st: ParserView)
    requires
        st.wf(),
    ensures
        follows(st, syntax_statement(st).1),
{
    lemma_expect_follows(st, TokenView::Equals, Expected::Equals);
    let st1 = expect(st, TokenView::Equals, Expected::Equals).1;
    lemma_expect_follows(st1, TokenView::Quote, Expected::Quote);
    let st2 = expect(st1, TokenView::Quote, Expected::Quote).1;
    lemma_token_consumes(st2);
    let st3 = st2.after_token().1;
    lemma_expect_follows(st3, TokenView::Quote, Expected::Quote);
    let st4 = expect(st3, TokenView::Quote, Expected::Quote).1;
    lemma_expect_follows(st4, TokenView::Semicolon, Expected::Semicolon);
}

/// Parsing an rpc leads to a state that follows.
pub proof fn lemma_rpc_follows(st: ParserView)
    requires
        st.wf(),
    ensures
        follows(st, rpc(st).1),
{
    lemma_expect_name_follows(st);
    let st1 = expect_name(st).1;
    lemma_parenthesized_follows(st1);
    let st2 = parenthesized_name(st1).1;
    lemma_significant_consumes(st2);
    let st3 = st2.after_significant().1;
    lemma_parenthesized_follows(st3);
    let st4 = parenthesized_name(st3).1;
    lemma_expect_follows(st4, TokenView::Semicolon, Expected::Semicolon);
}

/// Parsing the rest of a service body leads to a state that follows.
pub proof fn lemma_service_body_follows(st: ParserView, service: ServiceView)
    requires
        st.wf(),
    ensures
        follows(st, service_body(st, service).1),
    decreases st.remaining().len(),
{
    lemma_significant_consumes(st);
    let (tok, st1) = st.after_significant();
    if tok == Some(TokenView::Ident("rpc"@)) {
        lemma_rpc_follows(st1);
        let (parsed, st2) = rpc(st1);
        if let Ok(r) = parsed {
            lemma_service_body_follows(st2, ServiceView { rpcs: service.rpcs.push(r), ..service });
        }
    }
}

/// Parsing a service leads to a state that follows.
pub proof fn lemma_service_follows(st: ParserView)
    requires
        st.wf(),
    ensures
        follows(st, service(st).1),
{
    lemma_expect_name_follows(st);
    let (name, st1) = expect_name(st);
    lemma_expect_follows(st1, TokenView::BraceOpen, Expected::BraceOpen);
    let st2 = expect(st1, TokenView::BraceOpen, Expected::BraceOpen).1;
    if let Ok(name) = name {
        lemma_service_body_follows(st2, ServiceView { name, rpcs: Seq::empty() });
    }
}

/// Parsing a field leads to a state that follows.
pub proof fn lemma_field_follows(st: ParserView, ty_name: Seq<char>)
    requires
        st.wf(),
    ensures
        follows(st, field_of_type(st, ty_name).1),
{
    lemma_intern_follows(st, ty_name);
    let st0 = if scalar_type(ty_name) is Some {
        st
    } else {
        st.intern(ty_name).1
    };
    lemma_expect_name_follows(st0);
    let st1 = expect_name(st0).1;
    lemma_expect_follows(st1, TokenView::Equals, Expected::Equals);
    let st2 = expect(st1, TokenView::Equals, Expected::Equals).1;
    lemma_significant_consumes(st2);
    let st3 = st2.after_significant().1;
    lemma_expect_follows(st3, TokenView::Semicolon, Expected::Semicolon);
}

/// Parsing an optional field leads to a state that follows.
pub proof fn lemma_optional_field_follows(st: ParserView)
    requires
        st.wf(),
    ensures
        follows(st, optional_field(st).1),
{
    lemma_significant_consumes(st);
    let (tok, st1) = st.after_significant();
    if let Some(TokenView::Ident(ty_name)) = tok {
        lemma_field_follows(st1, ty_name);
    }
}

/// Parsing a message, or the rest of its body, leads to a state that
/// follows the one it started in.
pub proof fn lemma_message_follows(st: ParserView)
    requires
        st.wf(),
    ensures
        follows(st, message(st).1),
    decreases st.remaining().len(), 1int,
{
    lemma_expect_name_follows(st);
    let (name, st1) = expect_name(st);
    lemma_expect_follows(st1, TokenView::BraceOpen, Expected::BraceOpen);
    let (open, st2) = expect(st1, TokenView::BraceOpen, Expected::BraceOpen);
    if let Ok(name) = name {
        if open is Ok {
            lemma_message_body_follows(
                st2,
                MessageView {
                    name,
                    fields: Seq::empty(),
                    messages: Seq::empty(),
                    enums: Seq::empty(),
                },
            );
        }
    }
}

/// Parsing the rest of a message body leads to a state that follows.
pub proof fn lemma_message_body_follows(st: ParserView, msg: MessageView)
    requires
        st.wf(),
    ensures
        follows(st, message_body(st, msg).1),
    decreases st.remaining().len(), 0int,
{
    lemma_significant_consumes(st);
    let (tok, st1) = st.after_significant();
    if let Some(TokenView::Ident(word)) = tok {
        if word == "message"@ {
            lemma_message_follows(st1);
            let (nested, st2) = message(st1);
            if let Ok(m) = nested {
                lemma_message_body_follows(
                    st2,
                    MessageView { messages: msg.messages.push(m), ..msg },
                );
            }
        } else {
            lemma_optional_field_follows(st1);
            lemma_field_follows(st1, word);
            let (field, st2) = if word == "optional"@ {
                optional_field(st1)
            } else {
                field_of_type(st1, word)
            };
            if let Ok(f) = field {
                lemma_message_body_follows(st2, MessageView { fields: msg.fields.push(f), ..msg });
            }
        }
    }
}

/// Parsing a top-level item leads to a state that follows, with less input
/// left unless the input was at its end.
pub proof fn lemma_top_level_follows(st: ParserView)
    requires
        st.wf(),
    ensures
        follows(st, top_level(st).1),
        top_level(st).0 is Some ==> top_level(st).1.remaining().len() < st.remaining().len(),
{
    lemma_significant_consumes(st);
    let (tok, st1) = st.after_significant();
    lemma_syntax_follows(st1);
    lemma_service_follows(st1);
    lemma_message_follows(st1);
}

/// Whether the table is short enough for its handles to be machine
/// integers.
pub open spec fn bounded(st: ParserView) -> bool {
    st.strings.len() <= usize::MAX
}

/// The handle of an expected name points into the table that is left.
pub proof fn lemma_expect_name_ok(st: ParserView)
    requires
        st.wf(),
        bounded(expect_name(st).1),
    ensures
        expect_name(st).0 matches Ok(id) ==> id < expect_name(st).1.strings.len(),
{
    lemma_significant_consumes(st);
    let (tok, st1) = st.after_significant();
    if let Some(TokenView::Ident(text)) = tok {
        lemma_intern_follows(st1, text);
    }
}

/// The handle of a parenthesised name points into the table that is left.
pub proof fn lemma_parenthesized_ok(st: ParserView)
    requires
        st.wf(),
        bounded(parenthesized_name(st).1),
    ensures
        parenthesized_name(st).0 matches Ok(id) ==> id < parenthesized_name(st).1.strings.len(),
{
    lemma_expect_follows(st, TokenView::ParensOpen, Expected::ParensOpen);
    let st1 = expect(st, TokenView::ParensOpen, Expected::ParensOpen).1;
    lemma_expect_name_follows(st1);
    let st2 = expect_name(st1).1;
    lemma_expect_follows(st2, TokenView::ParensClose, Expected::ParensClose);
    if parenthesized_name(st).0 is Ok {
        lemma_expect_name_ok(st1);
    }
}

/// The handles of a parsed rpc point into the table that is left.
pub proof fn lemma_rpc_ok(st: ParserView)
    requires
        st.wf(),
        bounded(rpc(st).1),
    ensures
        rpc(st).0 matches Ok(r) ==> rpc_ok(r, rpc(st).1.strings.len() as int),
{
    lemma_expect_name_follows(st);
    let st1 = expect_name(st).1;
    lemma_parenthesized_follows(st1);
    let st2 = parenthesized_name(st1).1;
    lemma_significant_consumes(st2);
    let st3 = st2.after_significant().1;
    lemma_parenthesized_follows(st3);
    let st4 = parenthesized_name(st3).1;
    lemma_expect_follows(st4, TokenView::Semicolon, Expected::Semicolon);
    if rpc(st).0 is Ok {
        lemma_expect_name_ok(st);
        lemma_parenthesized_ok(st1);
        lemma_parenthesized_ok(st3);
    }
}

/// The handles of a parsed service body point into the table that is left,
/// if those of what was parsed before do.
pub proof fn lemma_service_body_ok(st: ParserView, service: ServiceView)
    requires
        st.wf(),
        bounded(service_body(st, service).1),
        service_ok(service, st.strings.len() as int),
    ensures
        service_body(st, service).0 matches Ok(s) ==> service_ok(
            s,
            service_body(st, service).1.strings.len() as int,
        ),
    decreases st.remaining().len(),
{
    lemma_significant_consumes(st);
    let (tok, st1) = st.after_significant();
    if tok == Some(TokenView::Ident("rpc"@)) {
        lemma_rpc_follows(st1);
        let (parsed, st2) = rpc(st1);
        if let Ok(r) = parsed {
            let next = ServiceView { rpcs: service.rpcs.push(r), ..service };
            lemma_service_body_follows(st2, next);
            lemma_rpc_ok(st1);
            lemma_service_ok_grows(service, st.strings.len() as int, st2.strings.len() as int);
            assert forall|i: int| 0 <= i < next.rpcs.len() implies rpc_ok(
                #[trigger] next.rpcs[i],
                st2.strings.len() as int,
            ) by {
                if i < service.rpcs.len() {
                    assert(next.rpcs[i] == service.rpcs[i]);
                }
            }
            lemma_service_body_ok(st2, next);
        }
    }
}

/// The handles of a parsed service point into the table that is left.
pub proof fn lemma_service_ok(st: ParserView)
    requires
        st.wf(),
        bounded(service(st).1),
    ensures
        service(st).0 matches Ok(TopLevelParseView::Service(s)) ==> service_ok(
            s,
            service(st).1.strings.len() as int,
        ),
{
    lemma_expect_name_follows(st);
    let (name, st1) = expect_name(st);
    lemma_expect_follows(st1, TokenView::BraceOpen, Expected::BraceOpen);
    let (open, st2) = expect(st1, TokenView::BraceOpen, Expected::BraceOpen);
    if let Ok(name) = name {
        if open is Ok {
            let start = ServiceView { name, rpcs: Seq::empty() };
            lemma_service_body_follows(st2, start);
            lemma_expect_name_ok(st);
            lemma_service_body_ok(st2, start);
        }
    }
}

/// A parsed field has a type, and its handles point into the table that is
/// left.
pub proof fn lemma_field_ok(st: ParserView, ty_name: Seq<char>)
    requires
        st.wf(),
        bounded(field_of_type(st, ty_name).1),
    ensures
        field_of_type(st, ty_name).0 matches Ok(f) ==> field_ok(
            f,
            field_of_type(st, ty_name).1.strings.len() as int,
        ),
{
    lemma_intern_follows(st, ty_name);
    let st0 = if scalar_type(ty_name) is Some {
        st
    } else {
        st.intern(ty_name).1
    };
    lemma_expect_name_follows(st0);
    let st1 = expect_name(st0).1;
    lemma_expect_follows(st1, TokenView::Equals, Expected::Equals);
    let st2 = expect(st1, TokenView::Equals, Expected::Equals).1;
    lemma_significant_consumes(st2);
    let st3 = st2.after_significant().1;
    lemma_expect_follows(st3, TokenView::Semicolon, Expected::Semicolon);
    if field_of_type(st, ty_name).0 is Ok {
        lemma_expect_name_ok(st0);
    }
}

/// A parsed optional field has a type, and its handles point into the
/// table that is left.
pub proof fn lemma_optional_field_ok(st: ParserView)
    requires
        st.wf(),
        bounded(optional_field(st).1),
    ensures
        optional_field(st).0 matches Ok(f) ==> field_ok(
            f,
            optional_field(st).1.strings.len() as int,
        ),
{
    lemma_significant_consumes(st);
    let (tok, st1) = st.after_significant();
    if let Some(TokenView::Ident(ty_name)) = tok {
        lemma_field_ok(st1, ty_name);
    }
}

/// Every handle of a parsed message points into the table that parsing
/// leaves, and every field of it has a type.
pub proof fn lemma_message_ok(st: ParserView)
    requires
        st.wf(),
        bounded(message(st).1),
    ensures
        message(st).0 matches Ok(m) ==> message_ok(m, message(st).1.strings.len() as int),
    decreases st.remaining().len(), 1int,
{
    lemma_expect_name_follows(st);
    let (name, st1) = expect_name(st);
    lemma_expect_follows(st1, TokenView::BraceOpen, Expected::BraceOpen);
    let (open, st2) = expect(st1, TokenView::BraceOpen, Expected::BraceOpen);
    if let Ok(name) = name {
        if open is Ok {
            let start = MessageView {
                name,
                fields: Seq::empty(),
                messages: Seq::empty(),
                enums: Seq::empty(),
            };
            lemma_message_body_follows(st2, start);
            lemma_expect_name_ok(st);
            lemma_message_body_ok(st2, start);
        }
    }
}

/// The handles of a parsed message body point into the table that is left,
/// if those of what was parsed before do.
pub proof fn lemma_message_body_ok(st: ParserView, msg: MessageView)
    requires
        st.wf(),
        bounded(message_body(st, msg).1),
        message_ok(msg, st.strings.len() as int),
    ensures
        message_body(st, msg).0 matches Ok(m) ==> message_ok(
            m,
            message_body(st, msg).1.strings.len() as int,
        ),
    decreases st.remaining().len(), 0int,
{
    lemma_significant_consumes(st);
    let (tok, st1) = st.after_significant();
    if let Some(TokenView::Ident(word)) = tok {
        if word == "message"@ {
            lemma_message_follows(st1);
            let (nested, st2) = message(st1);
            if let Ok(m) = nested {
                let next = MessageView { messages: msg.messages.push(m), ..msg };
                lemma_message_body_follows(st2, next);
                lemma_message_ok(st1);
                lemma_message_ok_grows(msg, st.strings.len() as int, st2.strings.len() as int);
                assert forall|i: int| 0 <= i < next.messages.len() implies message_ok(
                    #[trigger] next.messages[i],
                    st2.strings.len() as int,
                ) by {
                    if i < msg.messages.len() {
                        assert(next.messages[i] == msg.messages[i]);
                    }
                }
                lemma_message_body_ok(st2, next);
            }
        } else {
            lemma_optional_field_follows(st1);
            lemma_field_follows(st1, word);
            let (field, st2) = if word == "optional"@ {
                optional_field(st1)
            } else {
                field_of_type(st1, word)
            };
            if let Ok(f) = field {
                let next = MessageView { fields: msg.fields.push(f), ..msg };
                lemma_message_body_follows(st2, next);
                if word == "optional"@ {
                    lemma_optional_field_ok(st1);
                } else {
                    lemma_field_ok(st1, word);
                }
                lemma_message_ok_grows(msg, st.strings.len() as int, st2.strings.len() as int);
                assert forall|i: int| 0 <= i < next.fields.len() implies field_ok(
                    #[trigger] next.fields[i],
                    st2.strings.len() as int,
                ) by {
                    if i < msg.fields.len() {
                        assert(next.fields[i] == msg.fields[i]);
                    }
                }
                lemma_message_body_ok(st2, next);
            }
        }
    }
}

/// The handles of a parsed top-level item point into the table that is
/// left.
pub proof fn lemma_top_level_ok(st: ParserView)
    requires
        st.wf(),
        bounded(top_level(st).1),
    ensures
        top_level(st).0 matches Some(Ok(TopLevelParseView::Message(m))) ==> message_ok(
            m,
            top_level(st).1.strings.len() as int,
        ),
        top_level(st).0 matches Some(Ok(TopLevelParseView::Service(s))) ==> service_ok(
            s,
            top_level(st).1.strings.len() as int,
        ),
{
    lemma_significant_consumes(st);
    let (tok, st1) = st.after_significant();
    if let Some(TokenView::Ident(word)) = tok {
        if word == "syntax"@ {
        } else if word == "service"@ {
            lemma_service_ok(st1);
        } else if word == "message"@ {
            lemma_message_ok(st1);
        }
    }
}

/// The keyword that opens an item.
pub open spec fn keyword_of(item: TopLevelParseView) -> Seq<char> {
    match item {
        TopLevelParseView::SyntaxStatement => "syntax"@,
        TopLevelParseView::Package(_) => "package"@,
        TopLevelParseView::Service(_) => "service"@,
        TopLevelParseView::Message(_) => "message"@,
    }
}

/// The error for an item that stands where the grammar does not admit it.
/// It is found when the item has been read, and names the item's keyword.
pub open spec fn misplaced(
    st: ParserView,
    expected: Expected,
    item: TopLevelParseView,
) -> ParseErrorView {
    ParseErrorView {
        kind: ParseErrorKindView::UnexpectedToken(
            expected,
            Some(TokenView::Ident(keyword_of(item))),
        ),
        location: LocationView::Source { line: st.line(), column: st.column() },
    }
}

/// The messages and services of a file.
pub struct Declarations {
    pub messages: Seq<MessageView>,
    pub services: Seq<ServiceView>,
}

/// The items behind the syntax pragma, up to the end of the input: messages
/// and services, each added to what `found` holds.
pub open spec fn items(st: ParserView, found: Declarations) -> (
    Result<Declarations, ParseErrorView>,
    ParserView,
)
    decreases st.remaining().len(),
    when st.wf()
{
    let (item, st1) = top_level(st);
    match item {
        None => (Ok(found), st1),
        Some(Err(e)) => (Err(e), st1),
        Some(Ok(parsed)) => {
            proof {
                lemma_top_level_follows(st);
            }
            match parsed {
                TopLevelParseView::Service(s) => items(
                    st1,
                    Declarations { services: found.services.push(s), ..found },
                ),
                TopLevelParseView::Message(m) => items(
                    st1,
                    Declarations { messages: found.messages.push(m), ..found },
                ),
                _ => (Err(misplaced(st1, Expected::Declaration, parsed)), st1),
            }
        },
    }
}

/// What parsing a whole input yields: the first item must be the syntax
/// pragma; messages and services follow; the tree is then validated.
pub open spec fn file(st: ParserView) -> Result<ParseTreeView, ParseErrorView> {
    let (first, st1) = top_level(st);
    match first {
        None => Err(mismatch(st1, Expected::SyntaxKeyword, None)),
        Some(Err(e)) => Err(e),
        Some(Ok(TopLevelParseView::SyntaxStatement)) => {
            let (rest, st2) = items(
                st1,
                Declarations { messages: Seq::empty(), services: Seq::empty() },
            );
            match rest {
                Err(e) => Err(e),
                Ok(found) => {
                    let tree = ParseTreeView {
                        messages: found.messages,
                        enums: Seq::empty(),
                        services: found.services,
                        strings: st2.strings,
                    };
                    match validation(tree) {
                        Err(e) => Err(e),
                        Ok(_) => Ok(tree),
                    }
                },
            }
        },
        Some(Ok(other)) => Err(misplaced(st1, Expected::SyntaxKeyword, other)),
    }
}

} // verus!
