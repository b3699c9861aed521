//! The parser's state as a mathematical value, and what reading a character
//! or a token does to it.

use crate::intern::{intern_id, intern_strings, StringId};
use crate::lexis::{column_count, lemma_scan_bounds, line_count, scan};
use crate::parser::TokenView;
use vstd::prelude::*;

verus! {

/// The state of a parser.
pub struct ParserView {
    /// The whole input.
    pub input: Seq<char>,
    /// How many characters of the input have been read.
    pub pos: int,
    /// A character that was handed back and will be read next. There is
    /// never more than one.
    pub pending: Option<char>,
    /// The interned texts, in the order of their handles.
    pub strings: Seq<Seq<char>>,
}

/// The state of a parser that has read nothing of `text` yet.
pub open spec fn start(text: Seq<char>) -> ParserView {
    ParserView { input: text, pos: 0, pending: None, strings: Seq::empty() }
}

impl ParserView {
    /// The position lies inside the input, and the table holds no text
    /// twice.
    pub open spec fn wf(self) -> bool {
        &&& 0 <= self.pos <= self.input.len()
        &&& self.strings.no_duplicates()
    }

    /// The characters that are still to come, the one handed back first.
    pub open spec fn remaining(self) -> Seq<char> {
        match self.pending {
            Some(c) => seq![c] + self.input.skip(self.pos),
            None => self.input.skip(self.pos),
        }
    }

    /// The line counter: the line ends among the characters read.
    pub open spec fn line(self) -> int {
        line_count(self.input.take(self.pos))
    }

    /// The column counter: the characters read since the last line end,
    /// that line end counted.
    pub open spec fn column(self) -> int {
        column_count(self.input.take(self.pos))
    }

    /// Reading one character: the one handed back if there is one, else the
    /// next of the input; `None` at the end.
    pub open spec fn draw(self) -> (Option<char>, ParserView) {
        match self.pending {
            Some(c) => (Some(c), ParserView { pending: None, ..self }),
            None => if 0 <= self.pos < self.input.len() {
                (Some(self.input[self.pos]), ParserView { pos: self.pos + 1, ..self })
            } else {
                (None, self)
            },
        }
    }

    /// The character that `draw` would read.
    pub open spec fn peek(self) -> Option<char> {
        self.draw().0
    }

    /// Handing a character back.
    pub open spec fn push_back(self, c: Option<char>) -> ParserView {
        ParserView { pending: c, ..self }
    }

    /// Reading one token, whitespace and comments included; `None` at the
    /// end of the input.
    pub open spec fn after_token(self) -> (Option<TokenView>, ParserView) {
        let (c, st) = self.draw();
        match c {
            None => (None, st),
            Some(first) => {
                let lexeme = scan(first, st.input, st.pos);
                (
                    Some(lexeme.token),
                    ParserView {
                        pos: if lexeme.lookahead {
                            lexeme.end + 1
                        } else {
                            lexeme.end
                        },
                        pending: if lexeme.lookahead {
                            Some(st.input[lexeme.end])
                        } else {
                            None
                        },
                        ..st
                    },
                )
            },
        }
    }

    /// Reading the next token that is neither whitespace nor a comment.
    pub open spec fn after_significant(self) -> (Option<TokenView>, ParserView)
        decreases self.remaining().len(),
        when self.wf()
    {
        let (tok, st) = self.after_token();
        if tok matches Some(t) && (t is Whitespace || t is Comment) {
            proof {
                lemma_token_consumes(self);
            }
            st.after_significant()
        } else {
            (tok, st)
        }
    }

    /// Interning a text: its handle, and the state with the text in the
    /// table.
    pub open spec fn intern(self, text: Seq<char>) -> (StringId, ParserView) {
        (
            intern_id(self.strings, text) as StringId,
            ParserView { strings: intern_strings(self.strings, text), ..self },
        )
    }
}

/// Reading a token keeps the state well formed, the input and the table as
/// they were, and takes at least one character; there is no token only
/// where the input is at its end.
pub proof fn lemma_token_consumes(st: ParserView)
    requires
        st.wf(),
    ensures
        st.after_token().1.wf(),
        st.after_token().1.input == st.input,
        st.after_token().1.strings == st.strings,
        st.after_token().0 is Some ==> st.after_token().1.remaining().len()
            < st.remaining().len(),
        st.after_token().0 is None <==> st.remaining().len() == 0,
        st.after_token().0 is None ==> st.after_token().1 == st,
{
    let (c, st1) = st.draw();
    if let Some(first) = c {
        lemma_scan_bounds(first, st1.input, st1.pos);
    }
}

/// Reading a significant token keeps the state well formed, the input and
/// the table as they were, and takes at least one character; the token is
/// neither whitespace nor a comment, and there is none only where nothing
/// but whitespace and comments was left.
pub proof fn lemma_significant_consumes(st: ParserView)
    requires
        st.wf(),
    ensures
        st.after_significant().1.wf(),
        st.after_significant().1.input == st.input,
        st.after_significant().1.strings == st.strings,
        st.after_significant().0 is Some ==> st.after_significant().1.remaining().len()
            < st.remaining().len(),
        st.after_significant().1.remaining().len() <= st.remaining().len(),
        st.after_significant().0 is None ==> st.after_significant().1.remaining().len() == 0,
        st.after_significant().0 matches Some(t) ==> !(t is Whitespace) && !(t is Comment),
    decreases st.remaining().len(),
{
    lemma_token_consumes(st);
    let (tok, st1) = st.after_token();
    if tok matches Some(t) && (t is Whitespace || t is Comment) {
        lemma_significant_consumes(st1);
    }
}

} // verus!
