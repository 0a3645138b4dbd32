//! The typed failures of the interpreter. Each stage returns one of these
//! and thereby aborts processing of the current line; the enclosing
//! read-line loop reports it and reads the next line.

use vstd::prelude::*;

verus! {

/// One failure kind per stage: an I/O failure message from the host,
/// a malformed lexical input with its character position, a grammar
/// violation, an execution failure whose message embeds the offending
/// command or file name and the cause, an executable that could not be
/// located, and bad arguments to a built-in.
#[derive(Debug, Clone, PartialEq)]
pub enum ShellError {
    Io(String),
    Lexer(String, usize),
    Parser(String),
    Execution(String),
    CommandNotFound(String),
    InvalidArguments(String),
}

/// The mathematical shape of a failure: messages as character sequences.
pub ghost enum ShellErrorView {
    Io(Seq<char>),
    Lexer(Seq<char>, int),
    Parser(Seq<char>),
    Execution(Seq<char>),
    CommandNotFound(Seq<char>),
    InvalidArguments(Seq<char>),
}

impl View for ShellError {
    type V = ShellErrorView;

    open spec fn view(&self) -> ShellErrorView {
        match self {
            ShellError::Io(m) => ShellErrorView::Io(m@),
            ShellError::Lexer(m, p) => ShellErrorView::Lexer(m@, *p as int),
            ShellError::Parser(m) => ShellErrorView::Parser(m@),
            ShellError::Execution(m) => ShellErrorView::Execution(m@),
            ShellError::CommandNotFound(m) => ShellErrorView::CommandNotFound(m@),
            ShellError::InvalidArguments(m) => ShellErrorView::InvalidArguments(m@),
        }
    }
}

impl ShellError {
    /// A lexer failure at the given character position.
    pub fn lexer(message: &str, position: usize) -> (r: Self)
        ensures
            r@ == ShellErrorView::Lexer(message@, position as int),
    {
        ShellError::Lexer(message.to_owned(), position)
    }

    /// A grammar violation.
    pub fn parser(message: &str) -> (r: Self)
        ensures
            r@ == ShellErrorView::Parser(message@),
    {
        ShellError::Parser(message.to_owned())
    }

    /// An execution failure.
    pub fn execution(message: &str) -> (r: Self)
        ensures
            r@ == ShellErrorView::Execution(message@),
    {
        ShellError::Execution(message.to_owned())
    }

    /// A command whose executable could not be located.
    pub fn command_not_found(command: &str) -> (r: Self)
        ensures
            r@ == ShellErrorView::CommandNotFound(command@),
    {
        ShellError::CommandNotFound(command.to_owned())
    }

    /// Bad arguments handed to a built-in.
    pub fn invalid_arguments(message: &str) -> (r: Self)
        ensures
            r@ == ShellErrorView::InvalidArguments(message@),
    {
        ShellError::InvalidArguments(message.to_owned())
    }
}

} // verus!
