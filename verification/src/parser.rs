//! The parser: a recursive-descent builder of the command tree from the
//! token list, with one token of lookahead.
//!
//! The grammar:
//!
//! ```text
//! line      := pipeline (';' pipeline)*            left-leaning Sequence
//! pipeline  := command  ('|' command)*             left-leaning Pipeline
//! command   := simple_command (redir_op argument)* left-leaning nested Redirect
//! simple    := COMMAND (FLAG | ARGUMENT)*
//! redir_op  := '>' | '>>' | '<'
//! ```
//!
//! A statement that does not begin with a `Command` token is a grammar
//! violation, as is a redirection operator not followed by its filename
//! argument.

use vstd::prelude::*;

use crate::ast::{strings_view, AstNode, AstView};
use crate::error::{ShellError, ShellErrorView};
use crate::tokens::{Token, TokenView, TokenWithPos};

verus! {

/// The three ways the grammar can be violated: a statement that does not
/// begin with a (non-empty) command name, a redirection operator without
/// its filename, and tokens left over after the line's one derivation.
pub ghost enum ParseIssue {
    ExpectedCommand,
    ExpectedFilename,
    TrailingTokens,
}

/// The diagnostic text of a grammar violation.
pub open spec fn parse_issue_message(e: ParseIssue) -> Seq<char> {
    match e {
        ParseIssue::ExpectedCommand => "Expected command name"@,
        ParseIssue::ExpectedFilename => "Expected filename after redirection operator"@,
        ParseIssue::TrailingTokens => "Unexpected token after command"@,
    }
}

/// Collects the flags and arguments of a simple command, in source order,
/// up to the first token that is neither. Returns both lists and the
/// position of the stopping token.
pub open spec fn collect_words(
    ts: Seq<TokenView>,
    i: int,
    flags: Seq<Seq<char>>,
    args: Seq<Seq<char>>,
) -> (Seq<Seq<char>>, Seq<Seq<char>>, int)
    recommends
        0 <= i <= ts.len(),
    decreases ts.len() - i,
{
    if !(0 <= i < ts.len()) {
        (flags, args, i)
    } else {
        match ts[i] {
            TokenView::Flag(w) => collect_words(ts, i + 1, flags.push(w), args),
            TokenView::Argument(w) => collect_words(ts, i + 1, flags, args.push(w)),
            _ => (flags, args, i),
        }
    }
}

/// `simple := COMMAND (FLAG | ARGUMENT)*`; fails when the current token
/// is not a command name, or names the empty word — a command's name is
/// never empty.
pub open spec fn spec_parse_simple(ts: Seq<TokenView>, i: int) -> Result<
    (AstView, int),
    ParseIssue,
> {
    if !(0 <= i < ts.len()) {
        Err(ParseIssue::ExpectedCommand)
    } else {
        match ts[i] {
            TokenView::Command(name) => {
                if name.len() == 0 {
                    Err(ParseIssue::ExpectedCommand)
                } else {
                    let (flags, args, j) = collect_words(ts, i + 1, Seq::empty(), Seq::empty());
                    Ok((AstView::Command { name, flags, args }, j))
                }
            },
            _ => Err(ParseIssue::ExpectedCommand),
        }
    }
}

/// `(redir_op argument)*`: each redirection wraps the tree built so far;
/// an operator without a following filename argument is a violation.
pub open spec fn spec_parse_redirects(ts: Seq<TokenView>, i: int, acc: AstView) -> Result<
    (AstView, int),
    ParseIssue,
>
    recommends
        0 <= i <= ts.len(),
    decreases ts.len() - i,
{
    if !(0 <= i < ts.len()) {
        Ok((acc, i))
    } else {
        let op = ts[i];
        if op is RedirectOut || op is RedirectAppend || op is RedirectIn {
            if i + 1 < ts.len() {
                match ts[i + 1] {
                    TokenView::Argument(f) => spec_parse_redirects(
                        ts,
                        i + 2,
                        AstView::Redirect { command: Box::new(acc), operator: op, file: f },
                    ),
                    _ => Err(ParseIssue::ExpectedFilename),
                }
            } else {
                Err(ParseIssue::ExpectedFilename)
            }
        } else {
            Ok((acc, i))
        }
    }
}

/// `command := simple_command (redir_op argument)*`.
pub open spec fn spec_parse_command(ts: Seq<TokenView>, i: int) -> Result<
    (AstView, int),
    ParseIssue,
> {
    match spec_parse_simple(ts, i) {
        Ok((a, j)) => spec_parse_redirects(ts, j, a),
        Err(e) => Err(e),
    }
}

/// `('|' command)*`: each further command joins the tree built so far in
/// a left-leaning pipeline.
pub open spec fn spec_parse_pipe_rest(ts: Seq<TokenView>, i: int, acc: AstView) -> Result<
    (AstView, int),
    ParseIssue,
>
    recommends
        0 <= i <= ts.len(),
    decreases ts.len() - i,
        via spec_parse_pipe_rest_decreases
{
    if 0 <= i < ts.len() && ts[i] is Pipe {
        match spec_parse_command(ts, i + 1) {
            Ok((rhs, j)) => spec_parse_pipe_rest(
                ts,
                j,
                AstView::Pipeline { left: Box::new(acc), right: Box::new(rhs) },
            ),
            Err(e) => Err(e),
        }
    } else {
        Ok((acc, i))
    }
}

#[via_fn]
proof fn spec_parse_pipe_rest_decreases(ts: Seq<TokenView>, i: int, acc: AstView) {
    if 0 <= i < ts.len() && ts[i] is Pipe {
        lemma_spec_parse_command_range(ts, i + 1);
    }
}

/// `pipeline := command ('|' command)*`.
pub open spec fn spec_parse_pipeline(ts: Seq<TokenView>, i: int) -> Result<
    (AstView, int),
    ParseIssue,
> {
    match spec_parse_command(ts, i) {
        Ok((a, j)) => spec_parse_pipe_rest(ts, j, a),
        Err(e) => Err(e),
    }
}

/// `(';' pipeline)*`: each further pipeline joins the tree built so far
/// in a left-leaning sequence.
pub open spec fn spec_parse_seq_rest(ts: Seq<TokenView>, i: int, acc: AstView) -> Result<
    (AstView, int),
    ParseIssue,
>
    recommends
        0 <= i <= ts.len(),
    decreases ts.len() - i,
        via spec_parse_seq_rest_decreases
{
    if 0 <= i < ts.len() && ts[i] is Semicolon {
        match spec_parse_pipeline(ts, i + 1) {
            Ok((rhs, j)) => spec_parse_seq_rest(
                ts,
                j,
                AstView::Sequence { left: Box::new(acc), right: Box::new(rhs) },
            ),
            Err(e) => Err(e),
        }
    } else {
        Ok((acc, i))
    }
}

#[via_fn]
proof fn spec_parse_seq_rest_decreases(ts: Seq<TokenView>, i: int, acc: AstView) {
    if 0 <= i < ts.len() && ts[i] is Semicolon {
        lemma_spec_parse_pipeline_range(ts, i + 1);
    }
}

/// `line := pipeline (';' pipeline)*`.
pub open spec fn spec_parse_line(ts: Seq<TokenView>, i: int) -> Result<
    (AstView, int),
    ParseIssue,
> {
    match spec_parse_pipeline(ts, i) {
        Ok((a, j)) => spec_parse_seq_rest(ts, j, a),
        Err(e) => Err(e),
    }
}

/// What parsing a whole token list means: parsing a line from its start,
/// and accepting only when every token was consumed — a token the
/// grammar cannot reach is a violation, never silently dropped.
pub open spec fn spec_parse(ts: Seq<TokenView>) -> Result<AstView, ParseIssue> {
    match spec_parse_line(ts, 0) {
        Ok((a, n)) => if n == ts.len() {
            Ok(a)
        } else {
            Err(ParseIssue::TrailingTokens)
        },
        Err(e) => Err(e),
    }
}

/// Word collection never moves backwards and stays within the list.
pub proof fn lemma_collect_words_range(
    ts: Seq<TokenView>,
    i: int,
    flags: Seq<Seq<char>>,
    args: Seq<Seq<char>>,
)
    requires
        0 <= i <= ts.len(),
    ensures
        i <= collect_words(ts, i, flags, args).2 <= ts.len(),
    decreases ts.len() - i,
{
    if 0 <= i < ts.len() {
        match ts[i] {
            TokenView::Flag(w) => lemma_collect_words_range(ts, i + 1, flags.push(w), args),
            TokenView::Argument(w) => lemma_collect_words_range(ts, i + 1, flags, args.push(w)),
            _ => {},
        }
    }
}

/// A parsed simple command consumes at least its name token.
pub proof fn lemma_spec_parse_simple_range(ts: Seq<TokenView>, i: int)
    requires
        0 <= i <= ts.len(),
    ensures
        spec_parse_simple(ts, i) matches Ok(r) ==> i < r.1 <= ts.len(),
{
    if 0 <= i < ts.len() && ts[i] is Command {
        lemma_collect_words_range(ts, i + 1, Seq::empty(), Seq::empty());
    }
}

/// Redirection parsing never moves backwards and stays within the list.
pub proof fn lemma_spec_parse_redirects_range(ts: Seq<TokenView>, i: int, acc: AstView)
    requires
        0 <= i <= ts.len(),
    ensures
        spec_parse_redirects(ts, i, acc) matches Ok(r) ==> i <= r.1 <= ts.len(),
    decreases ts.len() - i,
{
    if 0 <= i < ts.len() {
        let op = ts[i];
        if (op is RedirectOut || op is RedirectAppend || op is RedirectIn) && i + 1 < ts.len() {
            match ts[i + 1] {
                TokenView::Argument(f) => lemma_spec_parse_redirects_range(
                    ts,
                    i + 2,
                    AstView::Redirect { command: Box::new(acc), operator: op, file: f },
                ),
                _ => {},
            }
        }
    }
}

/// A parsed command consumes at least one token.
pub proof fn lemma_spec_parse_command_range(ts: Seq<TokenView>, i: int)
    requires
        0 <= i <= ts.len(),
    ensures
        spec_parse_command(ts, i) matches Ok(r) ==> i < r.1 <= ts.len(),
{
    lemma_spec_parse_simple_range(ts, i);
    match spec_parse_simple(ts, i) {
        Ok(r) => lemma_spec_parse_redirects_range(ts, r.1, r.0),
        Err(_) => {},
    }
}

/// A parsed pipeline tail never moves backwards and stays within the
/// list.
pub proof fn lemma_spec_parse_pipe_rest_range(ts: Seq<TokenView>, i: int, acc: AstView)
    requires
        0 <= i <= ts.len(),
    ensures
        spec_parse_pipe_rest(ts, i, acc) matches Ok(r) ==> i <= r.1 <= ts.len(),
    decreases ts.len() - i,
{
    if 0 <= i < ts.len() && ts[i] is Pipe {
        lemma_spec_parse_command_range(ts, i + 1);
        match spec_parse_command(ts, i + 1) {
            Ok(r) => lemma_spec_parse_pipe_rest_range(
                ts,
                r.1,
                AstView::Pipeline { left: Box::new(acc), right: Box::new(r.0) },
            ),
            Err(_) => {},
        }
    }
}

/// A parsed pipeline consumes at least one token.
pub proof fn lemma_spec_parse_pipeline_range(ts: Seq<TokenView>, i: int)
    requires
        0 <= i <= ts.len(),
    ensures
        spec_parse_pipeline(ts, i) matches Ok(r) ==> i < r.1 <= ts.len(),
{
    lemma_spec_parse_command_range(ts, i);
    match spec_parse_command(ts, i) {
        Ok(r) => lemma_spec_parse_pipe_rest_range(ts, r.1, r.0),
        Err(_) => {},
    }
}

/// The token views of a positioned token list, positions dropped.
pub open spec fn plain_token_views(v: Seq<TokenWithPos>) -> Seq<TokenView> {
    v.map_values(|t: TokenWithPos| t.token@)
}

/// The word kinds a simple command accumulates, used while scanning its
/// flag and argument tokens.
enum WordKind {
    FlagWord(String),
    ArgWord(String),
    Stop,
}

/// The recursive-descent parser over one token list. It owns the tokens
/// and a cursor to the next unconsumed one.
pub struct Parser {
    tokens: Vec<TokenWithPos>,
    position: usize,
}

impl Parser {
    /// The token views being parsed.
    pub closed spec fn toks(&self) -> Seq<TokenView> {
        plain_token_views(self.tokens@)
    }

    /// The cursor: the index of the next unconsumed token.
    pub closed spec fn pos(&self) -> int {
        self.position as int
    }

    /// The cursor never stands past the end of the list.
    pub closed spec fn wf(&self) -> bool {
        self.position <= self.tokens@.len()
    }

    /// A parser over the given tokens, standing at the first.
    pub fn new(tokens: Vec<TokenWithPos>) -> (r: Parser)
        ensures
            r.toks() == plain_token_views(tokens@),
            r.pos() == 0,
            r.wf(),
    {
        Parser { tokens, position: 0 }
    }

    /// Parses the whole line. The result is exactly what `spec_parse`
    /// says of the tokens: the tree of the grammar's one derivation when
    /// it covers every token, or the diagnostic of the first violation —
    /// a leftover token the grammar cannot reach is a violation too,
    /// never silently dropped.
    pub fn parse(&mut self) -> (r: Result<AstNode, ShellError>)
        requires
            old(self).wf(),
            old(self).pos() == 0,
        ensures
            final(self).toks() == old(self).toks(),
            r matches Ok(a) ==> (spec_parse(old(self).toks()) matches Ok(av) && av == a@),
            r matches Err(e) ==> (spec_parse(old(self).toks()) matches Err(pe) && e@
                == ShellErrorView::Parser(parse_issue_message(pe))),
    {
        match self.parse_line() {
            Err(e) => Err(e),
            Ok(a) => {
                if self.position < self.tokens.len() {
                    Err(ShellError::parser("Unexpected token after command"))
                } else {
                    Ok(a)
                }
            },
        }
    }

    /// Moves the cursor past the token under it.
    fn advance(&mut self)
        requires
            old(self).wf(),
            old(self).pos() < old(self).toks().len(),
        ensures
            final(self).wf(),
            final(self).toks() == old(self).toks(),
            final(self).pos() == old(self).pos() + 1,
    {
        let n = self.tokens.len();
        assert(self.position < n);
        self.position = self.position + 1;
    }

    /// The token under the cursor, if any.
    fn current(&self) -> (r: Option<&Token>)
        requires
            self.wf(),
        ensures
            match r {
                Some(t) => self.pos() < self.toks().len() && t@ == self.toks()[self.pos()],
                None => self.pos() == self.toks().len(),
            },
    {
        if self.position < self.tokens.len() {
            Some(&self.tokens[self.position].token)
        } else {
            None
        }
    }

    /// `line := pipeline (';' pipeline)*`.
    fn parse_line(&mut self) -> (r: Result<AstNode, ShellError>)
        requires
            old(self).wf(),
        ensures
            final(self).wf(),
            final(self).toks() == old(self).toks(),
            r matches Ok(a) ==> (spec_parse_line(old(self).toks(), old(self).pos()) matches Ok(p)
                && p.0 == a@ && p.1 == final(self).pos()),
            r matches Err(e) ==> (spec_parse_line(old(self).toks(), old(self).pos()) matches Err(
                pe,
            ) && e@ == ShellErrorView::Parser(parse_issue_message(pe))),
    {
        let ghost ts = self.toks();
        let ghost i0 = self.pos();
        let mut left = match self.parse_pipeline() {
            Ok(a) => a,
            Err(e) => {
                return Err(e);
            },
        };
        loop
            invariant
                self.wf(),
                ts == old(self).toks(),
                i0 == old(self).pos(),
                self.toks() == ts,
                spec_parse_line(ts, i0) == spec_parse_seq_rest(ts, self.pos(), left@),
                0 <= self.pos() <= ts.len(),
            ensures
                self.wf(),
                self.toks() == ts,
                spec_parse_line(ts, i0) matches Ok(p) && p.0 == left@ && p.1 == self.pos(),
            decreases ts.len() - self.pos(),
        {
            let is_semi = match self.current() {
                Some(t) => matches!(t, Token::Semicolon),
                None => false,
            };
            if !is_semi {
                break;
            }
            self.advance();
            let right = match self.parse_pipeline() {
                Ok(a) => a,
                Err(e) => {
                    return Err(e);
                },
            };
            left = AstNode::Sequence { left: Box::new(left), right: Box::new(right) };
        }
        Ok(left)
    }

    /// `pipeline := command ('|' command)*`.
    fn parse_pipeline(&mut self) -> (r: Result<AstNode, ShellError>)
        requires
            old(self).wf(),
        ensures
            final(self).wf(),
            final(self).toks() == old(self).toks(),
            r matches Ok(a) ==> (spec_parse_pipeline(old(self).toks(), old(self).pos())
                matches Ok(p) && p.0 == a@ && p.1 == final(self).pos() && old(self).pos()
                < final(self).pos()),
            r matches Err(e) ==> (spec_parse_pipeline(old(self).toks(), old(self).pos())
                matches Err(pe) && e@ == ShellErrorView::Parser(parse_issue_message(pe))),
    {
        let ghost ts = self.toks();
        let ghost i0 = self.pos();
        proof {
            lemma_spec_parse_pipeline_range(ts, i0);
        }
        let mut left = match self.parse_command() {
            Ok(a) => a,
            Err(e) => {
                return Err(e);
            },
        };
        loop
            invariant
                self.wf(),
                ts == old(self).toks(),
                i0 == old(self).pos(),
                self.toks() == ts,
                spec_parse_pipeline(ts, i0) == spec_parse_pipe_rest(ts, self.pos(), left@),
                0 <= self.pos() <= ts.len(),
                i0 < self.pos(),
            ensures
                self.wf(),
                self.toks() == ts,
                i0 < self.pos(),
                spec_parse_pipeline(ts, i0) matches Ok(p) && p.0 == left@ && p.1 == self.pos(),
            decreases ts.len() - self.pos(),
        {
            let is_pipe = match self.current() {
                Some(t) => matches!(t, Token::Pipe),
                None => false,
            };
            if !is_pipe {
                break;
            }
            self.advance();
            let right = match self.parse_command() {
                Ok(a) => a,
                Err(e) => {
                    return Err(e);
                },
            };
            left = AstNode::Pipeline { left: Box::new(left), right: Box::new(right) };
        }
        Ok(left)
    }

    /// `command := simple_command (redir_op argument)*`.
    fn parse_command(&mut self) -> (r: Result<AstNode, ShellError>)
        requires
            old(self).wf(),
        ensures
            final(self).wf(),
            final(self).toks() == old(self).toks(),
            r matches Ok(a) ==> (spec_parse_command(old(self).toks(), old(self).pos())
                matches Ok(p) && p.0 == a@ && p.1 == final(self).pos() && old(self).pos()
                < final(self).pos()),
            r matches Err(e) ==> (spec_parse_command(old(self).toks(), old(self).pos())
                matches Err(pe) && e@ == ShellErrorView::Parser(parse_issue_message(pe))),
    {
        let ghost ts = self.toks();
        let ghost i0 = self.pos();
        proof {
            lemma_spec_parse_command_range(ts, i0);
        }
        let mut command = match self.parse_simple_command() {
            Ok(a) => a,
            Err(e) => {
                return Err(e);
            },
        };
        loop
            invariant
                self.wf(),
                ts == old(self).toks(),
                i0 == old(self).pos(),
                self.toks() == ts,
                spec_parse_command(ts, i0) == spec_parse_redirects(ts, self.pos(), command@),
                0 <= self.pos() <= ts.len(),
                i0 < self.pos(),
            ensures
                self.wf(),
                self.toks() == ts,
                i0 < self.pos(),
                spec_parse_command(ts, i0) matches Ok(p) && p.0 == command@ && p.1 == self.pos(),
            decreases ts.len() - self.pos(),
        {
            let is_redirect = match self.current() {
                Some(t) => matches!(
                    t,
                    Token::RedirectOut | Token::RedirectAppend | Token::RedirectIn
                ),
                None => false,
            };
            if !is_redirect {
                break;
            }
            let operator = match self.current() {
                Some(t) => t.duplicate(),
                None => Token::EOF,
            };
            self.advance();
            let file = match self.parse_redirect_file() {
                Ok(f) => f,
                Err(e) => {
                    return Err(e);
                },
            };
            command = AstNode::Redirect { command: Box::new(command), operator, file };
        }
        Ok(command)
    }

    /// The filename argument a redirection operator requires.
    fn parse_redirect_file(&mut self) -> (r: Result<String, ShellError>)
        requires
            old(self).wf(),
        ensures
            final(self).wf(),
            final(self).toks() == old(self).toks(),
            r matches Ok(f) ==> (old(self).pos() < old(self).toks().len() && old(self).toks()[old(
                self,
            ).pos()] == TokenView::Argument(f@) && final(self).pos() == old(self).pos() + 1),
            r matches Err(e) ==> ((old(self).pos() == old(self).toks().len() || !(old(
                self,
            ).toks()[old(self).pos()] is Argument)) && e@ == ShellErrorView::Parser(
                parse_issue_message(ParseIssue::ExpectedFilename),
            ) && final(self).pos() == old(self).pos()),
    {
        let file = match self.current() {
            Some(t) => match t {
                Token::Argument(f) => Some(f.clone()),
                _ => None,
            },
            None => None,
        };
        match file {
            Some(f) => {
                self.advance();
                Ok(f)
            },
            None => Err(ShellError::parser("Expected filename after redirection operator")),
        }
    }

    /// `simple := COMMAND (FLAG | ARGUMENT)*`.
    fn parse_simple_command(&mut self) -> (r: Result<AstNode, ShellError>)
        requires
            old(self).wf(),
        ensures
            final(self).wf(),
            final(self).toks() == old(self).toks(),
            r matches Ok(a) ==> (spec_parse_simple(old(self).toks(), old(self).pos()) matches Ok(p)
                && p.0 == a@ && p.1 == final(self).pos() && old(self).pos() < final(self).pos()),
            r matches Err(e) ==> (spec_parse_simple(old(self).toks(), old(self).pos())
                matches Err(pe) && e@ == ShellErrorView::Parser(parse_issue_message(pe))
                && final(self).pos() == old(self).pos()),
    {
        let ghost ts = self.toks();
        let ghost i0 = self.pos();
        let name = match self.current() {
            Some(t) => match t {
                Token::Command(c) => if c.as_str().is_empty() {
                    None
                } else {
                    Some(c.clone())
                },
                _ => None,
            },
            None => None,
        };
        let name = match name {
            Some(n) => {
                self.advance();
                n
            },
            None => {
                return Err(ShellError::parser("Expected command name"));
            },
        };
        let mut flags: Vec<String> = Vec::new();
        let mut args: Vec<String> = Vec::new();
        proof {
            assert(strings_view(flags@) =~= Seq::<Seq<char>>::empty());
            assert(strings_view(args@) =~= Seq::<Seq<char>>::empty());
        }
        loop
            invariant
                self.wf(),
                ts == old(self).toks(),
                i0 == old(self).pos(),
                self.toks() == ts,
                i0 < self.pos() <= ts.len(),
                collect_words(ts, i0 + 1, Seq::empty(), Seq::empty()) == collect_words(
                    ts,
                    self.pos(),
                    strings_view(flags@),
                    strings_view(args@),
                ),
            ensures
                self.wf(),
                self.toks() == ts,
                i0 < self.pos() <= ts.len(),
                collect_words(ts, i0 + 1, Seq::empty(), Seq::empty()) == (
                    strings_view(flags@),
                    strings_view(args@),
                    self.pos(),
                ),
            decreases ts.len() - self.pos(),
        {
            let kind = match self.current() {
                Some(t) => match t {
                    Token::Flag(w) => WordKind::FlagWord(w.clone()),
                    Token::Argument(w) => WordKind::ArgWord(w.clone()),
                    _ => WordKind::Stop,
                },
                None => WordKind::Stop,
            };
            match kind {
                WordKind::FlagWord(w) => {
                    proof {
                        assert(strings_view(flags@.push(w)) =~= strings_view(flags@).push(w@));
                    }
                    flags.push(w);
                    self.advance();
                },
                WordKind::ArgWord(w) => {
                    proof {
                        assert(strings_view(args@.push(w)) =~= strings_view(args@).push(w@));
                    }
                    args.push(w);
                    self.advance();
                },
                WordKind::Stop => {
                    break;
                },
            }
        }
        Ok(AstNode::Command { name, flags, args })
    }
}

} // verus!
