//! The syntax tree that parsing builds, and the parser itself.

use crate::cursor::{lemma_significant_consumes, lemma_token_consumes, start, ParserView};
use crate::decimal::parse_u32;
use crate::grammar;
use crate::intern::{StringId, StringIntern};
use crate::lexis::{
    block_end, char_in_class, class_has, closes_block, lemma_block_end, lemma_counts_bounded,
    lemma_run_end, lemma_scan_bounds, punctuation_token, run_end, token_start_of, CharClass,
    TokenStart, LINE_END,
};
use crate::text::{chars_of, str_eq};
use crate::tree::{message_ok, service_ok};
use vstd::prelude::*;

verus! {

/// The type of a field.
#[derive(Debug, Clone, PartialEq)]
pub enum FieldType {
    Int32,
    Int64,
    Uint32,
    Uint64,
    String,
    /// A reference, by name, to a message declared somewhere in the tree.
    Message(StringId),
    /// A reference, by name, to an enum declared somewhere in the tree.
    Enum(StringId),
    /// No type yet: never part of a finished tree.
    Undef,
}

impl Default for FieldType {
    fn default() -> (res: Self)
        ensures
            res == FieldType::Undef,
    {
        FieldType::Undef
    }
}

#[derive(Debug, PartialEq, Default)]
pub struct Package {}

#[derive(Default, Clone, Debug, PartialEq)]
pub struct Field {
    pub name: StringId,
    pub idx: u32,
    pub ftype: FieldType,
    pub optional: bool,
}

#[derive(Debug, Clone, PartialEq, Default)]
pub struct EnumVariant {
    pub name: StringId,
    pub id: u32,
}

#[derive(Debug, Clone, PartialEq, Default)]
pub struct Enum {
    pub name: StringId,
    pub variants: Vec<EnumVariant>,
}

#[derive(Debug, PartialEq, Default)]
pub struct Message {
    pub name: StringId,
    pub fields: Vec<Field>,
    pub messages: Vec<Message>,
    pub enums: Vec<Enum>,
}

#[derive(Debug, PartialEq, Default)]
pub struct Rpc {
    pub name: StringId,
    pub arg_type: StringId,
    pub ret_type: StringId,
}

#[derive(Debug, PartialEq, Default)]
pub struct Service {
    pub name: StringId,
    pub rpcs: Vec<Rpc>,
}

/// What an enum holds.
pub struct EnumView {
    pub name: StringId,
    pub variants: Seq<EnumVariant>,
}

/// What a message holds, nested declarations included.
pub struct MessageView {
    pub name: StringId,
    pub fields: Seq<Field>,
    pub messages: Seq<MessageView>,
    pub enums: Seq<EnumView>,
}

/// What a service holds.
pub struct ServiceView {
    pub name: StringId,
    pub rpcs: Seq<Rpc>,
}

impl View for Enum {
    type V = EnumView;

    open spec fn view(&self) -> EnumView {
        EnumView { name: self.name, variants: self.variants@ }
    }
}

/// What the messages of a list hold, one by one.
pub open spec fn messages_view(messages: Seq<Message>) -> Seq<MessageView>
    decreases messages, 0int,
{
    if messages.len() == 0 {
        Seq::empty()
    } else {
        messages_view(messages.drop_last()).push(message_view(messages.last()))
    }
}

/// What a message holds.
pub open spec fn message_view(m: Message) -> MessageView
    decreases m, 1int,
{
    MessageView {
        name: m.name,
        fields: m.fields@,
        messages: messages_view(m.messages@),
        enums: enums_view(m.enums@),
    }
}

/// What the enums of a list hold, one by one.
pub open spec fn enums_view(enums: Seq<Enum>) -> Seq<EnumView> {
    Seq::new(enums.len(), |i: int| enums[i]@)
}

impl View for Message {
    type V = MessageView;

    open spec fn view(&self) -> MessageView {
        message_view(*self)
    }
}

/// The views of a list of messages stand at the places of the messages.
pub proof fn lemma_messages_view(messages: Seq<Message>)
    ensures
        messages_view(messages).len() == messages.len(),
        forall|i: int|
            0 <= i < messages.len() ==> #[trigger] messages_view(messages)[i] == messages[i]@,
    decreases messages.len(),
{
    if messages.len() > 0 {
        lemma_messages_view(messages.drop_last());
    }
}

/// The view of a list with one more message is the view of the list with
/// that message's view behind it.
pub proof fn lemma_messages_view_push(messages: Seq<Message>, m: Message)
    ensures
        messages_view(messages.push(m)) == messages_view(messages).push(m@),
{
    assert(messages.push(m).drop_last() =~= messages);
}

impl View for Service {
    type V = ServiceView;

    open spec fn view(&self) -> ServiceView {
        ServiceView { name: self.name, rpcs: self.rpcs@ }
    }
}

impl View for Field {
    type V = Field;

    open spec fn view(&self) -> Field {
        *self
    }
}

impl View for Rpc {
    type V = Rpc;

    open spec fn view(&self) -> Rpc {
        *self
    }
}

/// One top-level item of a file.
#[derive(Debug, PartialEq)]
pub enum TopLevelParse {
    /// The syntax pragma, which holds nothing more.
    SyntaxStatement,
    Package(Package),
    Service(Service),
    Message(Message),
}

/// What a top-level item holds.
pub enum TopLevelParseView {
    SyntaxStatement,
    Package(Package),
    Service(ServiceView),
    Message(MessageView),
}

impl View for TopLevelParse {
    type V = TopLevelParseView;

    open spec fn view(&self) -> TopLevelParseView {
        match self {
            TopLevelParse::SyntaxStatement => TopLevelParseView::SyntaxStatement,
            TopLevelParse::Package(p) => TopLevelParseView::Package(*p),
            TopLevelParse::Service(s) => TopLevelParseView::Service(s@),
            TopLevelParse::Message(m) => TopLevelParseView::Message(m@),
        }
    }
}

/// What the services of a list hold, one by one.
pub open spec fn services_view(services: Seq<Service>) -> Seq<ServiceView> {
    Seq::new(services.len(), |i: int| services[i]@)
}

/// The syntax tree of one file, with the interner that its handles point
/// into. The two travel together until the tree is lowered.
#[derive(Debug)]
pub struct ParseTree {
    pub messages: Vec<Message>,
    pub enums: Vec<Enum>,
    pub services: Vec<Service>,
    pub intern: StringIntern,
}

/// What a syntax tree holds.
pub struct ParseTreeView {
    pub messages: Seq<MessageView>,
    pub enums: Seq<EnumView>,
    pub services: Seq<ServiceView>,
    pub strings: Seq<Seq<char>>,
}

impl View for ParseTree {
    type V = ParseTreeView;

    open spec fn view(&self) -> ParseTreeView {
        ParseTreeView {
            messages: messages_view(self.messages@),
            enums: enums_view(self.enums@),
            services: services_view(self.services@),
            strings: self.intern@,
        }
    }
}

/// What a result holds.
pub open spec fn result_view<T: View, E: View>(r: Result<T, E>) -> Result<T::V, E::V> {
    match r {
        Ok(t) => Ok(t@),
        Err(e) => Err(e@),
    }
}


/// One lexical token. Comments and whitespace are tokens of their own here;
/// the parser skips them.
#[derive(Debug, Clone, PartialEq)]
pub enum Token {
    Ident(String),
    Semicolon,
    BraceOpen,
    BraceClose,
    ParensOpen,
    ParensClose,
    Quote,
    Equals,
    Number(String),
    Comment(String),
    Whitespace,
    /// A lexical error, with a diagnostic text.
    Error(String),
}

/// What a token holds.
pub enum TokenView {
    Ident(Seq<char>),
    Semicolon,
    BraceOpen,
    BraceClose,
    ParensOpen,
    ParensClose,
    Quote,
    Equals,
    Number(Seq<char>),
    Comment(Seq<char>),
    Whitespace,
    Error(Seq<char>),
}

impl View for Token {
    type V = TokenView;

    open spec fn view(&self) -> TokenView {
        match self {
            Token::Ident(s) => TokenView::Ident(s@),
            Token::Semicolon => TokenView::Semicolon,
            Token::BraceOpen => TokenView::BraceOpen,
            Token::BraceClose => TokenView::BraceClose,
            Token::ParensOpen => TokenView::ParensOpen,
            Token::ParensClose => TokenView::ParensClose,
            Token::Quote => TokenView::Quote,
            Token::Equals => TokenView::Equals,
            Token::Number(s) => TokenView::Number(s@),
            Token::Comment(s) => TokenView::Comment(s@),
            Token::Whitespace => TokenView::Whitespace,
            Token::Error(s) => TokenView::Error(s@),
        }
    }
}

/// What an optional token holds.
pub open spec fn token_opt_view(tok: Option<Token>) -> Option<TokenView> {
    match tok {
        Some(t) => Some(t@),
        None => None,
    }
}

/// The class or set of tokens that the grammar admits at a position.
#[derive(Debug, Clone, Copy, PartialEq, Eq, Structural)]
pub enum Expected {
    /// The keyword `syntax`, which opens the first item of a file.
    SyntaxKeyword,
    /// One of the keywords `message` and `service`, which open the items
    /// behind the first.
    Declaration,
    /// One of the keywords that open a top-level item.
    TopLevelKeyword,
    /// `=`.
    Equals,
    /// `"`.
    Quote,
    /// The schema version `proto3`, directly behind the opening quote.
    Version,
    /// `;`.
    Semicolon,
    /// `{`.
    BraceOpen,
    /// `(`.
    ParensOpen,
    /// `)`.
    ParensClose,
    /// An identifier that names a declaration, a field or a type.
    Name,
    /// The keyword `rpc`, or `}`.
    RpcOrBraceClose,
    /// The keyword `returns`.
    ReturnsKeyword,
    /// What may stand in a message body: a nested message, a field, or `}`.
    MemberOrBraceClose,
    /// A field tag: a number that fits in 32 bits.
    FieldTag,
}

/// What went wrong.
#[derive(Debug, Clone, PartialEq)]
pub enum ParseErrorKind {
    /// The lexer met an unterminated block comment or a character that
    /// starts no token; the text is its diagnostic.
    LexError(String),
    /// The parser met a token outside the set that the grammar admits at
    /// that position; `None` stands for the end of the input.
    UnexpectedToken(Expected, Option<Token>),
    /// A type reference names no message or enum of the tree; the text is
    /// the name that does not resolve.
    UnresolvedType(String),
    /// Two fields of one message share this tag.
    DuplicateFieldTag(u32),
}

/// Where it went wrong.
#[derive(Debug, Clone, PartialEq)]
pub enum Location {
    /// In the source text: the lexer's line and column counters when the
    /// error was found.
    Source { line: usize, column: usize },
    /// In the tree: the field or rpc called `name` of the message or service
    /// called `owner`.
    Member { owner: String, name: String },
}

/// The first error that stopped the processing of a file.
#[derive(Debug, Clone, PartialEq)]
pub struct ParseError {
    pub kind: ParseErrorKind,
    pub location: Location,
}

/// What an error kind holds.
pub enum ParseErrorKindView {
    LexError(Seq<char>),
    UnexpectedToken(Expected, Option<TokenView>),
    UnresolvedType(Seq<char>),
    DuplicateFieldTag(u32),
}

/// What a location holds.
pub enum LocationView {
    Source { line: int, column: int },
    Member { owner: Seq<char>, name: Seq<char> },
}

/// What an error holds.
pub struct ParseErrorView {
    pub kind: ParseErrorKindView,
    pub location: LocationView,
}

impl View for ParseErrorKind {
    type V = ParseErrorKindView;

    open spec fn view(&self) -> ParseErrorKindView {
        match self {
            ParseErrorKind::LexError(text) => ParseErrorKindView::LexError(text@),
            ParseErrorKind::UnexpectedToken(expected, actual) => ParseErrorKindView::UnexpectedToken(
                *expected,
                token_opt_view(*actual),
            ),
            ParseErrorKind::UnresolvedType(name) => ParseErrorKindView::UnresolvedType(name@),
            ParseErrorKind::DuplicateFieldTag(tag) => ParseErrorKindView::DuplicateFieldTag(*tag),
        }
    }
}

impl View for Location {
    type V = LocationView;

    open spec fn view(&self) -> LocationView {
        match self {
            Location::Source { line, column } => LocationView::Source {
                line: *line as int,
                column: *column as int,
            },
            Location::Member { owner, name } => LocationView::Member { owner: owner@, name: name@ },
        }
    }
}

impl View for ParseError {
    type V = ParseErrorView;

    open spec fn view(&self) -> ParseErrorView {
        ParseErrorView { kind: self.kind@, location: self.location@ }
    }
}


/// A lexer and recursive-descent parser over one input text.
pub struct Parser {
    /// The table of the identifiers met so far.
    pub intern: StringIntern,
    linenum: usize,
    colnum: usize,
    input: Vec<char>,
    pos: usize,
    next_char: Option<char>,
}

impl View for Parser {
    type V = ParserView;

    closed spec fn view(&self) -> ParserView {
        ParserView {
            input: self.input@,
            pos: self.pos as int,
            pending: self.next_char,
            strings: self.intern@,
        }
    }
}

impl Parser {
    /// The state is well formed and the two counters hold what the state
    /// says they hold.
    pub closed spec fn wf(&self) -> bool {
        &&& self@.wf()
        &&& self.intern.wf()
        &&& self.linenum == self@.line()
        &&& self.colnum == self@.column()
    }

    /// A parser at the start of `text`, with an empty table.
    pub fn new(text: &str) -> (res: Self)
        ensures
            res.wf(),
            res@ == start(text@),
    {
        let input = chars_of(text);
        let res = Parser {
            intern: StringIntern::new(),
            linenum: 0,
            colnum: 0,
            input,
            pos: 0,
            next_char: None,
        };
        assert(res@.input.take(0) =~= Seq::<char>::empty());
        res
    }

    /// The line and column counters: the line ends among the characters
    /// read from the input, and the characters read since the last of them,
    /// that line end counted.
    pub fn position(&self) -> (at: (usize, usize))
        requires
            self.wf(),
        ensures
            at.0 == self@.line(),
            at.1 == self@.column(),
    {
        (self.linenum, self.colnum)
    }

    /// Hands a character back, to be read again next. Nothing may be
    /// pending already.
    pub fn unnext_char(&mut self, c: Option<char>)
        requires
            old(self).wf(),
            old(self)@.pending is None,
        ensures
            final(self).wf(),
            final(self)@ == old(self)@.push_back(c),
    {
        self.next_char = c;
    }

    /// Reads one character and counts it: a line end starts a new line.
    pub fn next_char(&mut self) -> (c: Option<char>)
        requires
            old(self).wf(),
        ensures
            final(self).wf(),
            c == old(self)@.draw().0,
            final(self)@ == old(self)@.draw().1,
    {
        if let Some(k) = self.next_char {
            self.next_char = None;
            return Some(k);
        }
        if self.pos >= self.input.len() {
            return None;
        }
        let c = self.input[self.pos];
        proof {
            let before = self.input@.take(self.pos as int);
            let after = self.input@.take(self.pos + 1);
            assert(after.drop_last() =~= before);
            assert(after.last() == c);
            lemma_counts_bounded(before);
        }
        self.pos = self.pos + 1;
        if c == LINE_END {
            self.linenum = self.linenum + 1;
            self.colnum = 0;
        }
        self.colnum = self.colnum + 1;
        Some(c)
    }

    /// The character that `next_char` would read, without reading it.
    pub fn peek_char(&self) -> (c: Option<char>)
        requires
            self.wf(),
        ensures
            c == self@.peek(),
    {
        if let Some(c) = self.next_char {
            return Some(c);
        }
        if self.pos < self.input.len() {
            Some(self.input[self.pos])
        } else {
            None
        }
    }

    /// Reads the next character if `cb` accepts it, and says whether it did.
    pub fn try_next_char<F>(&mut self, cb: F) -> (taken: bool) where F: FnOnce(char) -> bool
        requires
            old(self).wf(),
            forall|c: char| cb.requires((c,)),
        ensures
            final(self).wf(),
            match old(self)@.peek() {
                Some(c) => cb.ensures((c,), taken) && final(self)@ == if taken {
                    old(self)@.draw().1
                } else {
                    old(self)@
                },
                None => !taken && final(self)@ == old(self)@,
            },
    {
        if let Some(c) = self.peek_char() {
            let res = cb(c);
            if res {
                self.next_char();
            }
            return res;
        }
        false
    }

    /// Reads the characters of `class` that follow, up to the first that is
    /// not of it, which is handed back; appends them to `s` if `keep`.
    fn take_run(&mut self, s: &mut String, class: CharClass, keep: bool)
        requires
            old(self).wf(),
            old(self)@.pending is None,
        ensures
            final(self).wf(),
            ({
                let st = old(self)@;
                let e = run_end(st.input, st.pos, class);
                &&& final(self)@ == (ParserView {
                    pos: if e < st.input.len() {
                        e + 1
                    } else {
                        e
                    },
                    pending: if e < st.input.len() {
                        Some(st.input[e])
                    } else {
                        None
                    },
                    ..st
                })
                &&& final(s)@ == if keep {
                    old(s)@ + st.input.subrange(st.pos, e)
                } else {
                    old(s)@
                }
            }),
    {
        let ghost st = self@;
        loop
            invariant
                self.wf(),
                st == old(self)@,
                self@.pending is None,
                self@.input == st.input,
                self@.strings == st.strings,
                st.wf(),
                st.pos <= self@.pos <= st.input.len(),
                forall|i: int| st.pos <= i < self@.pos ==> class_has(class, st.input[i]),
                s@ == if keep {
                    old(s)@ + st.input.subrange(st.pos, self@.pos)
                } else {
                    old(s)@
                },
            decreases st.input.len() - self@.pos,
        {
            let ghost here = self@.pos;
            match self.next_char() {
                Some(c) => {
                    if !char_in_class(class, c) {
                        proof {
                            lemma_run_end(st.input, st.pos, class, here);
                        }
                        self.unnext_char(Some(c));
                        return ;
                    }
                    if keep {
                        s.push(c);
                        assert(s@ =~= old(s)@ + st.input.subrange(st.pos, here + 1));
                    }
                },
                None => {
                    proof {
                        lemma_run_end(st.input, st.pos, class, here);
                    }
                    return ;
                },
            }
        }
    }

    /// Reads a block comment's body behind its opening `/*`, through the
    /// closing `*/`, and appends it to `s`; says whether the comment was
    /// closed before the input ended.
    fn take_block(&mut self, s: &mut String) -> (closed: bool)
        requires
            old(self).wf(),
            old(self)@.pending is None,
        ensures
            final(self).wf(),
            ({
                let st = old(self)@;
                let e = block_end(st.input, st.pos);
                &&& closed == (e < st.input.len())
                &&& final(self)@ == (ParserView {
                    pos: if closed {
                        e + 2
                    } else {
                        st.input.len() as int
                    },
                    ..st
                })
                &&& final(s)@ == old(s)@ + st.input.subrange(st.pos, final(self)@.pos)
            }),
    {
        let ghost st = self@;
        loop
            invariant
                self.wf(),
                st == old(self)@,
                self@.pending is None,
                self@.input == st.input,
                self@.strings == st.strings,
                st.wf(),
                st.pending is None,
                st.pos <= self@.pos <= st.input.len(),
                forall|i: int| st.pos <= i < self@.pos ==> !closes_block(st.input, i),
                s@ == old(s)@ + st.input.subrange(st.pos, self@.pos),
            decreases st.input.len() - self@.pos,
        {
            let ghost here = self@.pos;
            match self.next_char() {
                Some(c) => {
                    s.push(c);
                    assert(s@ =~= old(s)@ + st.input.subrange(st.pos, here + 1));
                    if c == '*' {
                        if let Some(d) = self.peek_char() {
                            if d == '/' {
                                self.next_char();
                                s.push('/');
                                proof {
                                    lemma_block_end(st.input, st.pos, here);
                                    assert(s@ =~= old(s)@ + st.input.subrange(st.pos, here + 2));
                                }
                                return true;
                            }
                        }
                    }
                },
                None => {
                    proof {
                        lemma_block_end(st.input, st.pos, here);
                    }
                    return false;
                },
            }
        }
    }

    /// Reads the token that starts with the `/` just read.
    fn slash_token(&mut self) -> (tok: Token)
        requires
            old(self).wf(),
            old(self)@.pending is None,
        ensures
            final(self).wf(),
            ({
                let st = old(self)@;
                let lexeme = crate::lexis::slash_lexeme(st.input, st.pos);
                &&& tok@ == lexeme.token
                &&& !lexeme.lookahead
                &&& final(self)@ == (ParserView { pos: lexeme.end, ..st })
            }),
    {
        let ghost st = self@;
        let mut s = String::new();
        s.push('/');
        match self.next_char() {
            Some(c) => {
                s.push(c);
                if c == '/' {
                    self.take_run(&mut s, CharClass::NotLineEnd, true);
                    // The line end, if one stopped the run, goes with the
                    // comment.
                    self.next_char();
                    proof {
                        let e = run_end(st.input, st.pos + 1, CharClass::NotLineEnd);
                        crate::lexis::lemma_run_end_is_end(
                            st.input,
                            st.pos + 1,
                            CharClass::NotLineEnd,
                        );
                        assert(s@ =~= seq!['/'] + st.input.subrange(st.pos, e));
                    }
                    Token::Comment(s)
                } else if c == '*' {
                    let closed = self.take_block(&mut s);
                    if closed {
                        proof {
                            let e = block_end(st.input, st.pos + 1);
                            crate::lexis::lemma_block_end_is_end(st.input, st.pos + 1);
                            assert(s@ =~= seq!['/'] + st.input.subrange(st.pos, e + 2));
                        }
                        Token::Comment(s)
                    } else {
                        Token::Error("Expected /".to_owned())
                    }
                } else {
                    Token::Error("Expected /".to_owned())
                }
            },
            None => Token::Error("Unexpected char".to_owned()),
        }
    }

    /// Reads one token, whitespace and comments included; `None` at the end
    /// of the input.
    pub fn next_token(&mut self) -> (tok: Option<Token>)
        requires
            old(self).wf(),
        ensures
            final(self).wf(),
            token_opt_view(tok) == old(self)@.after_token().0,
            final(self)@ == old(self)@.after_token().1,
    {
        let c = match self.next_char() {
            Some(c) => c,
            None => {
                return None;
            },
        };
        let ghost st = self@;
        proof {
            lemma_scan_bounds(c, st.input, st.pos);
        }
        let white = c.is_whitespace();
        match token_start_of(c, white) {
            TokenStart::Identifier => {
                let mut s = String::new();
                s.push(c);
                self.take_run(&mut s, CharClass::IdentPart, true);
                assert(s@ =~= seq![c] + st.input.subrange(
                    st.pos,
                    run_end(st.input, st.pos, CharClass::IdentPart),
                ));
                Some(Token::Ident(s))
            },
            TokenStart::Slash => Some(self.slash_token()),
            TokenStart::Number => {
                let mut s = String::new();
                s.push(c);
                self.take_run(&mut s, CharClass::Digit, true);
                assert(s@ =~= seq![c] + st.input.subrange(
                    st.pos,
                    run_end(st.input, st.pos, CharClass::Digit),
                ));
                Some(Token::Number(s))
            },
            TokenStart::Punctuation => punctuation_token(c),
            TokenStart::Whitespace => {
                let mut s = String::new();
                self.take_run(&mut s, CharClass::Space, false);
                Some(Token::Whitespace)
            },
            TokenStart::Unknown => Some(Token::Error("Unexpected char".to_owned())),
        }
    }

    /// Reads the next token that is neither whitespace nor a comment.
    pub fn next_non_ws_token(&mut self) -> (tok: Option<Token>)
        requires
            old(self).wf(),
        ensures
            final(self).wf(),
            token_opt_view(tok) == old(self)@.after_significant().0,
            final(self)@ == old(self)@.after_significant().1,
    {
        loop
            invariant
                self.wf(),
                self@.wf(),
                self@.after_significant() == old(self)@.after_significant(),
            decreases self@.remaining().len(),
        {
            proof {
                lemma_token_consumes(self@);
            }
            match self.next_token() {
                Some(Token::Whitespace) => {},
                Some(Token::Comment(_)) => {},
                other => {
                    return other;
                },
            }
        }
    }
}


/// Whether two tokens are of one kind and hold the same text.
pub fn tokens_equal(a: &Token, b: &Token) -> (same: bool)
    ensures
        same == (a@ == b@),
{
    match (a, b) {
        (Token::Ident(x), Token::Ident(y)) => str_eq(x.as_str(), y.as_str()),
        (Token::Semicolon, Token::Semicolon) => true,
        (Token::BraceOpen, Token::BraceOpen) => true,
        (Token::BraceClose, Token::BraceClose) => true,
        (Token::ParensOpen, Token::ParensOpen) => true,
        (Token::ParensClose, Token::ParensClose) => true,
        (Token::Quote, Token::Quote) => true,
        (Token::Equals, Token::Equals) => true,
        (Token::Number(x), Token::Number(y)) => str_eq(x.as_str(), y.as_str()),
        (Token::Comment(x), Token::Comment(y)) => str_eq(x.as_str(), y.as_str()),
        (Token::Whitespace, Token::Whitespace) => true,
        (Token::Error(x), Token::Error(y)) => str_eq(x.as_str(), y.as_str()),
        _ => false,
    }
}

/// Whether a token is the identifier `word`.
pub fn token_is_word(tok: &Option<Token>, word: &str) -> (same: bool)
    ensures
        same == (token_opt_view(*tok) == Some(TokenView::Ident(word@))),
{
    match tok {
        Some(Token::Ident(text)) => str_eq(text.as_str(), word),
        _ => false,
    }
}

/// The scalar type that a reserved type name stands for.
pub fn scalar_type_of(name: &str) -> (res: Option<FieldType>)
    ensures
        res == grammar::scalar_type(name@),
{
    if str_eq(name, "int32") {
        Some(FieldType::Int32)
    } else if str_eq(name, "int64") {
        Some(FieldType::Int64)
    } else if str_eq(name, "uint32") {
        Some(FieldType::Uint32)
    } else if str_eq(name, "uint64") {
        Some(FieldType::Uint64)
    } else if str_eq(name, "string") {
        Some(FieldType::String)
    } else {
        None
    }
}

impl Parser {
    /// The error for `actual`, which the grammar does not admit here.
    fn fail(&self, expected: Expected, actual: Option<Token>) -> (e: ParseError)
        requires
            self.wf(),
        ensures
            e@ == grammar::mismatch(self@, expected, token_opt_view(actual)),
    {
        let location = Location::Source { line: self.linenum, column: self.colnum };
        match actual {
            Some(Token::Error(text)) => ParseError { kind: ParseErrorKind::LexError(text), location },
            other => ParseError { kind: ParseErrorKind::UnexpectedToken(expected, other), location },
        }
    }

    /// Interns a text in this parser's table.
    fn intern_text(&mut self, text: &str) -> (id: StringId)
        requires
            old(self).wf(),
        ensures
            final(self).wf(),
            id == old(self)@.intern(text@).0,
            final(self)@ == old(self)@.intern(text@).1,
    {
        self.intern.get_id(text)
    }

    /// Reads the next significant token, which must be `want`.
    fn expect(&mut self, want: Token, expected: Expected) -> (res: Result<(), ParseError>)
        requires
            old(self).wf(),
        ensures
            final(self).wf(),
            result_view(res) == grammar::expect(old(self)@, want@, expected).0,
            final(self)@ == grammar::expect(old(self)@, want@, expected).1,
    {
        let tok = self.next_non_ws_token();
        let matched = match &tok {
            Some(t) => tokens_equal(t, &want),
            None => false,
        };
        if matched {
            Ok(())
        } else {
            Err(self.fail(expected, tok))
        }
    }

    /// Reads the next significant token, which must be an identifier, and
    /// interns it.
    fn expect_name(&mut self) -> (res: Result<StringId, ParseError>)
        requires
            old(self).wf(),
        ensures
            final(self).wf(),
            result_view(res) == grammar::expect_name(old(self)@).0,
            final(self)@ == grammar::expect_name(old(self)@).1,
    {
        match self.next_non_ws_token() {
            Some(Token::Ident(text)) => Ok(self.intern_text(text.as_str())),
            other => Err(self.fail(Expected::Name, other)),
        }
    }

    /// `( <Name> )`
    fn parse_parenthesized(&mut self) -> (res: Result<StringId, ParseError>)
        requires
            old(self).wf(),
        ensures
            final(self).wf(),
            result_view(res) == grammar::parenthesized_name(old(self)@).0,
            final(self)@ == grammar::parenthesized_name(old(self)@).1,
    {
        self.expect(Token::ParensOpen, Expected::ParensOpen)?;
        let id = self.expect_name()?;
        self.expect(Token::ParensClose, Expected::ParensClose)?;
        Ok(id)
    }

    /// Parses the syntax pragma behind its keyword.
    pub fn parse_syntax(&mut self) -> (res: Result<TopLevelParse, ParseError>)
        requires
            old(self).wf(),
        ensures
            final(self).wf(),
            result_view(res) == grammar::syntax_statement(old(self)@).0,
            final(self)@ == grammar::syntax_statement(old(self)@).1,
    {
        self.expect(Token::Equals, Expected::Equals)?;
        self.expect(Token::Quote, Expected::Quote)?;
        let version = self.next_token();
        if !token_is_word(&version, "proto3") {
            return Err(self.fail(Expected::Version, version));
        }
        self.expect(Token::Quote, Expected::Quote)?;
        self.expect(Token::Semicolon, Expected::Semicolon)?;
        Ok(TopLevelParse::SyntaxStatement)
    }

    /// Parses an rpc behind its keyword.
    fn parse_rpc(&mut self) -> (res: Result<Rpc, ParseError>)
        requires
            old(self).wf(),
        ensures
            final(self).wf(),
            result_view(res) == grammar::rpc(old(self)@).0,
            final(self)@ == grammar::rpc(old(self)@).1,
    {
        let name = self.expect_name()?;
        let arg_type = self.parse_parenthesized()?;
        let returns_kw = self.next_non_ws_token();
        if !token_is_word(&returns_kw, "returns") {
            return Err(self.fail(Expected::ReturnsKeyword, returns_kw));
        }
        let ret_type = self.parse_parenthesized()?;
        self.expect(Token::Semicolon, Expected::Semicolon)?;
        Ok(Rpc { name, arg_type, ret_type })
    }

    /// Parses a service behind its keyword.
    #[verifier::loop_isolation(false)]
    fn parse_service(&mut self) -> (res: Result<TopLevelParse, ParseError>)
        requires
            old(self).wf(),
        ensures
            final(self).wf(),
            result_view(res) == grammar::service(old(self)@).0,
            final(self)@ == grammar::service(old(self)@).1,
    {
        let name = self.expect_name()?;
        self.expect(Token::BraceOpen, Expected::BraceOpen)?;
        let mut service = Service { name, rpcs: Vec::new() };
        let ghost st0 = self@;
        let ghost service0 = service@;
        loop
            invariant
                self.wf(),
                st0.wf(),
                grammar::service_body(self@, service@) == grammar::service_body(st0, service0),
            decreases self@.remaining().len(),
        {
            let ghost st = self@;
            proof {
                lemma_significant_consumes(st);
            }
            let tok = self.next_non_ws_token();
            if let Some(Token::BraceClose) = tok {
                return Ok(TopLevelParse::Service(service));
            }
            if !token_is_word(&tok, "rpc") {
                return Err(self.fail(Expected::RpcOrBraceClose, tok));
            }
            proof {
                grammar::lemma_rpc_follows(self@);
            }
            let rpc = self.parse_rpc()?;
            service.rpcs.push(rpc);
        }
    }

    /// Parses a field behind its type name.
    fn parse_field_of_type(&mut self, ty_name: String) -> (res: Result<Field, ParseError>)
        requires
            old(self).wf(),
        ensures
            final(self).wf(),
            result_view(res) == grammar::field_of_type(old(self)@, ty_name@).0,
            final(self)@ == grammar::field_of_type(old(self)@, ty_name@).1,
    {
        let ftype = match scalar_type_of(ty_name.as_str()) {
            Some(t) => t,
            None => FieldType::Message(self.intern_text(ty_name.as_str())),
        };
        let name = self.expect_name()?;
        self.expect(Token::Equals, Expected::Equals)?;
        let tok = self.next_non_ws_token();
        let tag = match &tok {
            Some(Token::Number(digits)) => parse_u32(digits.as_str()),
            _ => None,
        };
        let idx = match tag {
            Some(idx) => idx,
            None => {
                return Err(self.fail(Expected::FieldTag, tok));
            },
        };
        self.expect(Token::Semicolon, Expected::Semicolon)?;
        Ok(Field { name, idx, ftype, optional: false })
    }

    /// Parses a field behind the modifier `optional`.
    fn parse_optional_field(&mut self) -> (res: Result<Field, ParseError>)
        requires
            old(self).wf(),
        ensures
            final(self).wf(),
            result_view(res) == grammar::optional_field(old(self)@).0,
            final(self)@ == grammar::optional_field(old(self)@).1,
    {
        match self.next_non_ws_token() {
            Some(Token::Ident(ty_name)) => {
                let mut field = self.parse_field_of_type(ty_name)?;
                field.optional = true;
                Ok(field)
            },
            other => Err(self.fail(Expected::Name, other)),
        }
    }

    /// Parses a message behind its keyword, nested messages included.
    #[verifier::loop_isolation(false)]
    fn parse_message(&mut self) -> (res: Result<Message, ParseError>)
        requires
            old(self).wf(),
        ensures
            final(self).wf(),
            result_view(res) == grammar::message(old(self)@).0,
            final(self)@ == grammar::message(old(self)@).1,
        decreases old(self)@.remaining().len(),
    {
        proof {
            grammar::lemma_expect_name_follows(self@);
        }
        let name = self.expect_name()?;
        proof {
            grammar::lemma_expect_follows(self@, TokenView::BraceOpen, Expected::BraceOpen);
        }
        self.expect(Token::BraceOpen, Expected::BraceOpen)?;
        let mut message = Message {
            name,
            fields: Vec::new(),
            messages: Vec::new(),
            enums: Vec::new(),
        };
        let ghost st0 = self@;
        let ghost message0 = message@;
        assert(message0.enums =~= Seq::empty());
        loop
            invariant
                self.wf(),
                st0.wf(),
                self@.remaining().len() < old(self)@.remaining().len(),
                grammar::message_body(self@, message@) == grammar::message_body(st0, message0),
            decreases self@.remaining().len(),
        {
            let ghost st = self@;
            let ghost before = message@;
            proof {
                lemma_significant_consumes(st);
            }
            let tok = self.next_non_ws_token();
            match tok {
                Some(Token::BraceClose) => {
                    return Ok(message);
                },
                Some(Token::Ident(word)) => {
                    let ghost st1 = self@;
                    if str_eq(word.as_str(), "message") {
                        proof {
                            grammar::lemma_message_follows(st1);
                        }
                        let nested = self.parse_message()?;
                        proof {
                            lemma_messages_view_push(message.messages@, nested);
                        }
                        message.messages.push(nested);
                    } else {
                        proof {
                            grammar::lemma_optional_field_follows(st1);
                            grammar::lemma_field_follows(st1, word@);
                        }
                        let field = if str_eq(word.as_str(), "optional") {
                            self.parse_optional_field()?
                        } else {
                            self.parse_field_of_type(word)?
                        };
                        message.fields.push(field);
                    }
                },
                other => {
                    return Err(self.fail(Expected::MemberOrBraceClose, other));
                },
            }
        }
    }

    /// Parses the next top-level item; `None` at the end of the input.
    pub fn next_parse(&mut self) -> (res: Option<Result<TopLevelParse, ParseError>>)
        requires
            old(self).wf(),
        ensures
            final(self).wf(),
            final(self)@ == grammar::top_level(old(self)@).1,
            match res {
                Some(r) => grammar::top_level(old(self)@).0 == Some(result_view(r)),
                None => grammar::top_level(old(self)@).0 is None,
            },
    {
        let tok = self.next_non_ws_token();
        if tok.is_none() {
            return None;
        }
        if token_is_word(&tok, "syntax") {
            Some(self.parse_syntax())
        } else if token_is_word(&tok, "service") {
            Some(self.parse_service())
        } else if token_is_word(&tok, "message") {
            Some(
                match self.parse_message() {
                    Ok(msg) => Ok(TopLevelParse::Message(msg)),
                    Err(e) => Err(e),
                },
            )
        } else {
            Some(Err(self.fail(Expected::TopLevelKeyword, tok)))
        }
    }

    /// The error for an item that stands where the grammar does not admit
    /// it.
    fn misplaced(&self, expected: Expected, item: &TopLevelParse) -> (e: ParseError)
        requires
            self.wf(),
        ensures
            e@ == grammar::misplaced(self@, expected, item@),
    {
        let keyword = match item {
            TopLevelParse::SyntaxStatement => "syntax",
            TopLevelParse::Package(_) => "package",
            TopLevelParse::Service(_) => "service",
            TopLevelParse::Message(_) => "message",
        };
        ParseError {
            kind: ParseErrorKind::UnexpectedToken(expected, Some(Token::Ident(keyword.to_owned()))),
            location: Location::Source { line: self.linenum, column: self.colnum },
        }
    }

    /// Parses the whole input and validates the tree. The interner moves
    /// into the tree.
    #[verifier::loop_isolation(false)]
    pub fn parse(self) -> (res: Result<ParseTree, ParseError>)
        requires
            self.wf(),
        ensures
            result_view(res) == grammar::file(self@),
            res matches Ok(tree) ==> tree.wf(),
    {
        let mut parser = self;
        match parser.next_parse() {
            Some(Ok(TopLevelParse::SyntaxStatement)) => {},
            Some(Ok(other)) => {
                return Err(parser.misplaced(Expected::SyntaxKeyword, &other));
            },
            Some(Err(e)) => {
                return Err(e);
            },
            None => {
                return Err(parser.fail(Expected::SyntaxKeyword, None));
            },
        }
        let mut messages: Vec<Message> = Vec::new();
        let mut services: Vec<Service> = Vec::new();
        let ghost st1 = parser@;
        let ghost start = grammar::Declarations { messages: Seq::empty(), services: Seq::empty() };
        proof {
            assert(services_view(services@) =~= Seq::empty());
            grammar::lemma_top_level_follows(self@);
        }
        loop
            invariant
                parser.wf(),
                st1.wf(),
                grammar::items(
                    parser@,
                    grammar::Declarations {
                        messages: messages_view(messages@),
                        services: services_view(services@),
                    },
                ) == grammar::items(st1, start),
                forall|k: int|
                    0 <= k < messages@.len() ==> message_ok(
                        #[trigger] messages_view(messages@)[k],
                        parser@.strings.len() as int,
                    ),
                forall|k: int|
                    0 <= k < services@.len() ==> service_ok(
                        #[trigger] services_view(services@)[k],
                        parser@.strings.len() as int,
                    ),
            decreases parser@.remaining().len(),
        {
            let ghost st = parser@;
            let ghost earlier_messages = messages_view(messages@);
            let ghost earlier_services = services_view(services@);
            proof {
                grammar::lemma_top_level_follows(st);
                lemma_messages_view(messages@);
            }
            let item = match parser.next_parse() {
                Some(Ok(item)) => item,
                Some(Err(e)) => {
                    return Err(e);
                },
                None => {
                    proof {
                        lemma_significant_consumes(st);
                    }
                    break ;
                },
            };
            let n = parser.intern.len();
            proof {
                grammar::lemma_top_level_ok(st);
                assert forall|k: int| 0 <= k < messages@.len() implies message_ok(
                    #[trigger] earlier_messages[k],
                    n as int,
                ) by {
                    crate::tree::lemma_message_ok_grows(
                        earlier_messages[k],
                        st.strings.len() as int,
                        n as int,
                    );
                }
                assert forall|k: int| 0 <= k < services@.len() implies service_ok(
                    #[trigger] earlier_services[k],
                    n as int,
                ) by {
                    crate::tree::lemma_service_ok_grows(
                        earlier_services[k],
                        st.strings.len() as int,
                        n as int,
                    );
                }
            }
            match item {
                TopLevelParse::Service(s) => {
                    services.push(s);
                    assert(services_view(services@) =~= earlier_services.push(s@));
                },
                TopLevelParse::Message(m) => {
                    proof {
                        lemma_messages_view_push(messages@, m);
                    }
                    messages.push(m);
                    proof {
                        lemma_messages_view(messages@);
                    }
                },
                other => {
                    return Err(parser.misplaced(Expected::Declaration, &other));
                },
            }
        }
        let ghost end = parser@;
        let Parser { intern, .. } = parser;
        let tree = ParseTree { messages, enums: Vec::new(), services, intern };
        proof {
            lemma_messages_view(messages@);
            assert(tree@.enums =~= Seq::empty());
            assert(tree@.strings == end.strings);
            assert(tree@.messages == messages_view(messages@));
            assert(tree@.services == services_view(services@));
            assert(tree.intern.wf());
        }
        match tree.validate() {
            Ok(()) => Ok(tree),
            Err(e) => Err(e),
        }
    }
}

} // verus!
