//! Lexical units: the token classes the lexer emits, and each token's
//! source span, kept for diagnostics.

use vstd::prelude::*;

verus! {

/// A classified lexical unit. Word tokens carry their text; the first word
/// of each simple command is a `Command`, a later word beginning with `-`
/// is a `Flag`, and any other word is an `Argument`. The remaining variants
/// are the operators, plus an `EOF` marker that the lexer itself never
/// emits.
#[derive(Debug, Clone, PartialEq)]
pub enum Token {
    Command(String),
    Flag(String),
    Argument(String),
    Pipe,
    RedirectOut,
    RedirectAppend,
    RedirectIn,
    Semicolon,
    EOF,
}

/// The mathematical shape of a token: word text as a character sequence.
pub ghost enum TokenView {
    Command(Seq<char>),
    Flag(Seq<char>),
    Argument(Seq<char>),
    Pipe,
    RedirectOut,
    RedirectAppend,
    RedirectIn,
    Semicolon,
    EOF,
}

impl View for Token {
    type V = TokenView;

    open spec fn view(&self) -> TokenView {
        match self {
            Token::Command(s) => TokenView::Command(s@),
            Token::Flag(s) => TokenView::Flag(s@),
            Token::Argument(s) => TokenView::Argument(s@),
            Token::Pipe => TokenView::Pipe,
            Token::RedirectOut => TokenView::RedirectOut,
            Token::RedirectAppend => TokenView::RedirectAppend,
            Token::RedirectIn => TokenView::RedirectIn,
            Token::Semicolon => TokenView::Semicolon,
            Token::EOF => TokenView::EOF,
        }
    }
}

impl TokenView {
    /// An operator token separates or rebinds commands.
    pub open spec fn spec_is_operator(self) -> bool {
        match self {
            TokenView::Pipe
            | TokenView::RedirectOut
            | TokenView::RedirectAppend
            | TokenView::RedirectIn
            | TokenView::Semicolon => true,
            _ => false,
        }
    }

    /// One of the three redirection operators.
    pub open spec fn spec_is_redirect_op(self) -> bool {
        match self {
            TokenView::RedirectOut | TokenView::RedirectAppend | TokenView::RedirectIn => true,
            _ => false,
        }
    }

    /// A word token carries text.
    pub open spec fn spec_is_word(self) -> bool {
        match self {
            TokenView::Command(_) | TokenView::Flag(_) | TokenView::Argument(_) => true,
            _ => false,
        }
    }

    /// The text of a word token; meaningful only when `spec_is_word` holds.
    pub open spec fn spec_text(self) -> Seq<char> {
        match self {
            TokenView::Command(s) => s,
            TokenView::Flag(s) => s,
            TokenView::Argument(s) => s,
            _ => Seq::empty(),
        }
    }
}

impl Token {
    /// Whether this token is one of the five operators.
    pub fn is_operator(&self) -> (r: bool)
        ensures
            r == self@.spec_is_operator(),
    {
        match self {
            Token::Pipe
            | Token::RedirectOut
            | Token::RedirectAppend
            | Token::RedirectIn
            | Token::Semicolon => true,
            _ => false,
        }
    }

    /// Whether this token is a word (command name, flag, or argument).
    pub fn is_word(&self) -> (r: bool)
        ensures
            r == self@.spec_is_word(),
    {
        match self {
            Token::Command(_) | Token::Flag(_) | Token::Argument(_) => true,
            _ => false,
        }
    }

    /// The text of a word token, or `None` for an operator or `EOF`.
    pub fn as_str(&self) -> (r: Option<&str>)
        ensures
            match r {
                Some(s) => self@.spec_is_word() && s@ == self@.spec_text(),
                None => !self@.spec_is_word(),
            },
    {
        match self {
            Token::Command(s) | Token::Flag(s) | Token::Argument(s) => Some(s.as_str()),
            _ => None,
        }
    }

    /// An exact copy of this token.
    pub fn duplicate(&self) -> (r: Token)
        ensures
            r == *self,
    {
        match self {
            Token::Command(s) => Token::Command(s.clone()),
            Token::Flag(s) => Token::Flag(s.clone()),
            Token::Argument(s) => Token::Argument(s.clone()),
            Token::Pipe => Token::Pipe,
            Token::RedirectOut => Token::RedirectOut,
            Token::RedirectAppend => Token::RedirectAppend,
            Token::RedirectIn => Token::RedirectIn,
            Token::Semicolon => Token::Semicolon,
            Token::EOF => Token::EOF,
        }
    }
}

/// A token together with its `[start, end)` character offsets in the
/// source line, used only for diagnostics.
#[derive(Debug, Clone, PartialEq)]
pub struct TokenWithPos {
    pub token: Token,
    pub start: usize,
    pub end: usize,
}

/// The mathematical shape of a positioned token.
pub ghost struct PosTokenView {
    pub token: TokenView,
    pub start: int,
    pub end: int,
}

impl View for TokenWithPos {
    type V = PosTokenView;

    open spec fn view(&self) -> PosTokenView {
        PosTokenView { token: self.token@, start: self.start as int, end: self.end as int }
    }
}

} // verus!
