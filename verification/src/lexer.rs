//! The lexer: a single left-to-right pass that turns a line of shell
//! syntax into positioned tokens.
//!
//! Whitespace outside words separates tokens and produces none. The
//! single-character operators map directly; `>` is greedy and consumes a
//! second `>` for an append redirection. Quoted strings (`'...'` or
//! `"..."`) are scanned as one word; a backslash keeps the following
//! character from closing the quote or delimiting the word, and both
//! characters are kept verbatim in the word's text — translating escape
//! sequences is a built-in's own business, not the lexer's. Reaching the
//! end of the line before a closing quote is a lexer failure that names
//! the position of the opening quote.
//!
//! A word is classified by an explicit scan state: the first word of the
//! line and the first word after `|` or `;` is a `Command`; the word after
//! a redirection operator is always an `Argument`, whatever its first
//! character; any other word beginning with `-` is a `Flag`, the rest are
//! `Argument`s.

use vstd::prelude::*;

use crate::error::{ShellError, ShellErrorView};
use crate::text;
use crate::tokens::{PosTokenView, Token, TokenView, TokenWithPos};

verus! {

/// The classification state of the scanner: at the start of a simple
/// command, right after a redirection operator, or in the middle of a
/// command's word list.
#[derive(Debug, Clone, Copy, PartialEq, Eq, Structural)]
pub enum LexState {
    CommandStart,
    AfterRedirect,
    InCommand,
}

/// Whitespace separates tokens.
pub open spec fn is_space_char(c: char) -> bool {
    c == ' ' || c == '\t' || c == '\n' || c == '\r'
}

/// The four operator characters end an unquoted word.
pub open spec fn is_operator_char(c: char) -> bool {
    c == '|' || c == '>' || c == '<' || c == ';'
}

/// Either quote character opens a quoted word.
pub open spec fn is_quote_char(c: char) -> bool {
    c == '\'' || c == '"'
}

/// Scans an unquoted word starting at `i`: characters up to (not
/// including) the first unescaped whitespace or operator character.
/// A backslash and the character it escapes are both kept. Returns the
/// word's text and the position just past it.
pub open spec fn scan_word(s: Seq<char>, i: int, esc: bool) -> (Seq<char>, int)
    recommends
        0 <= i <= s.len(),
    decreases s.len() - i,
{
    if !(0 <= i < s.len()) {
        (Seq::empty(), i)
    } else if esc {
        let (w, j) = scan_word(s, i + 1, false);
        (seq![s[i]] + w, j)
    } else if s[i] == '\\' {
        let (w, j) = scan_word(s, i + 1, true);
        (seq![s[i]] + w, j)
    } else if is_space_char(s[i]) || is_operator_char(s[i]) {
        (Seq::empty(), i)
    } else {
        let (w, j) = scan_word(s, i + 1, false);
        (seq![s[i]] + w, j)
    }
}

/// Scans the inside of a quoted word opened with `q`, starting at `i`
/// (just past the opening quote). A backslash keeps the next character
/// from closing the quote; both are kept in the text. Returns the word's
/// text and the position just past the closing quote, or `None` when the
/// line ends before the quote is closed.
pub open spec fn scan_quoted(s: Seq<char>, i: int, q: char, esc: bool) -> Option<(Seq<char>, int)>
    recommends
        0 <= i <= s.len(),
    decreases s.len() - i,
{
    if !(0 <= i < s.len()) {
        None
    } else if esc {
        match scan_quoted(s, i + 1, q, false) {
            Some((w, j)) => Some((seq![s[i]] + w, j)),
            None => None,
        }
    } else if s[i] == '\\' {
        match scan_quoted(s, i + 1, q, true) {
            Some((w, j)) => Some((seq![s[i]] + w, j)),
            None => None,
        }
    } else if s[i] == q {
        Some((Seq::empty(), i + 1))
    } else {
        match scan_quoted(s, i + 1, q, false) {
            Some((w, j)) => Some((seq![s[i]] + w, j)),
            None => None,
        }
    }
}

/// Classifies a word's text by the scan state.
pub open spec fn classify_word(w: Seq<char>, st: LexState) -> TokenView {
    match st {
        LexState::CommandStart => TokenView::Command(w),
        LexState::AfterRedirect => TokenView::Argument(w),
        LexState::InCommand => if w.len() > 0 && w[0] == '-' {
            TokenView::Flag(w)
        } else {
            TokenView::Argument(w)
        },
    }
}

/// One scanning step at a time, from position `i` in state `st`, with the
/// tokens already emitted in `acc`. The result is all tokens of the line,
/// or the position of an unclosed opening quote.
pub open spec fn lex_from(
    s: Seq<char>,
    i: int,
    st: LexState,
    acc: Seq<PosTokenView>,
) -> Result<Seq<PosTokenView>, int>
    recommends
        0 <= i <= s.len(),
    decreases s.len() - i,
        via lex_from_decreases
{
    if !(0 <= i < s.len()) {
        Ok(acc)
    } else if is_space_char(s[i]) {
        lex_from(s, i + 1, st, acc)
    } else if s[i] == '|' {
        lex_from(s, i + 1, LexState::CommandStart,
            acc.push(PosTokenView { token: TokenView::Pipe, start: i, end: i + 1 }))
    } else if s[i] == '>' {
        if i + 1 < s.len() && s[i + 1] == '>' {
            lex_from(s, i + 2, LexState::AfterRedirect,
                acc.push(PosTokenView { token: TokenView::RedirectAppend, start: i, end: i + 2 }))
        } else {
            lex_from(s, i + 1, LexState::AfterRedirect,
                acc.push(PosTokenView { token: TokenView::RedirectOut, start: i, end: i + 1 }))
        }
    } else if s[i] == '<' {
        lex_from(s, i + 1, LexState::AfterRedirect,
            acc.push(PosTokenView { token: TokenView::RedirectIn, start: i, end: i + 1 }))
    } else if s[i] == ';' {
        lex_from(s, i + 1, LexState::CommandStart,
            acc.push(PosTokenView { token: TokenView::Semicolon, start: i, end: i + 1 }))
    } else if is_quote_char(s[i]) {
        match scan_quoted(s, i + 1, s[i], false) {
            None => Err(i),
            Some((w, j)) => lex_from(s, j, LexState::InCommand,
                acc.push(PosTokenView { token: classify_word(w, st), start: i, end: j })),
        }
    } else {
        let (w, j) = scan_word(s, i, false);
        lex_from(s, j, LexState::InCommand,
            acc.push(PosTokenView { token: classify_word(w, st), start: i, end: j }))
    }
}

#[via_fn]
proof fn lex_from_decreases(s: Seq<char>, i: int, st: LexState, acc: Seq<PosTokenView>) {
    if 0 <= i < s.len() {
        if is_quote_char(s[i]) && !is_space_char(s[i]) && s[i] != '|' && s[i] != '>' && s[i] != '<'
            && s[i] != ';' {
            lemma_scan_quoted_range(s, i + 1, s[i], false);
        }
        lemma_scan_word_range(s, i, false);
    }
}

/// The word scan never moves backwards, stays within the line, and makes
/// progress whenever it stands on a character that belongs to a word.
pub proof fn lemma_scan_word_range(s: Seq<char>, i: int, esc: bool)
    requires
        0 <= i <= s.len(),
    ensures
        i <= scan_word(s, i, esc).1 <= s.len(),
        i < s.len() && (esc || !(is_space_char(s[i]) || is_operator_char(s[i]))) ==> scan_word(
            s,
            i,
            esc,
        ).1 > i,
    decreases s.len() - i,
{
    if 0 <= i < s.len() {
        if esc || s[i] == '\\' || !(is_space_char(s[i]) || is_operator_char(s[i])) {
            lemma_scan_word_range(s, i + 1, if esc { false } else { s[i] == '\\' });
        }
    }
}

/// A closed quoted word ends strictly past its starting position and
/// within the line.
pub proof fn lemma_scan_quoted_range(s: Seq<char>, i: int, q: char, esc: bool)
    requires
        0 <= i <= s.len(),
    ensures
        scan_quoted(s, i, q, esc) matches Some(r) ==> i < r.1 <= s.len(),
    decreases s.len() - i,
{
    if 0 <= i < s.len() {
        lemma_scan_quoted_range(s, i + 1, q, if esc { false } else { s[i] == '\\' });
    }
}

/// What tokenizing a whole line means: scanning from its start, in the
/// start-of-command state, with nothing emitted yet.
pub open spec fn spec_tokenize(s: Seq<char>) -> Result<Seq<PosTokenView>, int> {
    lex_from(s, 0, LexState::CommandStart, Seq::empty())
}

/// The views of a sequence of positioned tokens.
pub open spec fn token_views(v: Seq<TokenWithPos>) -> Seq<PosTokenView> {
    v.map_values(|t: TokenWithPos| t@)
}

proof fn lemma_token_views_push(v: Seq<TokenWithPos>, t: TokenWithPos)
    ensures
        token_views(v.push(t)) == token_views(v).push(t@),
{
    assert(token_views(v.push(t)) =~= token_views(v).push(t@));
}

/// The single-use scanner over one line, holding the line's characters.
pub struct Lexer {
    input: Vec<char>,
}

impl Lexer {
    /// The line being scanned.
    pub closed spec fn line(&self) -> Seq<char> {
        self.input@
    }

    /// A scanner over the given line, standing at its first character.
    /// The line is expected to come already trimmed of leading and
    /// trailing whitespace; untrimmed whitespace is harmless, since
    /// whitespace produces no tokens.
    pub fn new(input: String) -> (r: Lexer)
        ensures
            r.line() == input@,
    {
        Lexer { input: text::chars_of(input.as_str()) }
    }

    /// Scans the whole line into positioned tokens, or reports the
    /// position of an unclosed opening quote. The result is exactly what
    /// `spec_tokenize` says of the line.
    pub fn tokenize(&mut self) -> (r: Result<Vec<TokenWithPos>, ShellError>)
        ensures
            final(self).line() == old(self).line(),
            r matches Ok(v) ==> spec_tokenize(old(self).line()) == Ok::<_, int>(token_views(v@)),
            r matches Err(e) ==> (spec_tokenize(old(self).line()) matches Err(p) && e@
                == ShellErrorView::Lexer("Unclosed quote"@, p)),
    {
        let ghost line = self.input@;
        let n = self.input.len();
        let mut tokens: Vec<TokenWithPos> = Vec::new();
        let mut state = LexState::CommandStart;
        let mut i: usize = 0;
        proof {
            assert(token_views(tokens@) =~= Seq::<PosTokenView>::empty());
        }
        while i < n
            invariant
                i <= n,
                n == line.len(),
                self.input@ == line,
                spec_tokenize(line) == lex_from(line, i as int, state, token_views(tokens@)),
            decreases n - i,
        {
            let c = self.input[i];
            if c == ' ' || c == '\t' || c == '\n' || c == '\r' {
                i = i + 1;
            } else if c == '|' {
                let t = TokenWithPos { token: Token::Pipe, start: i, end: i + 1 };
                proof {
                    lemma_token_views_push(tokens@, t);
                }
                tokens.push(t);
                state = LexState::CommandStart;
                i = i + 1;
            } else if c == '>' {
                if i + 1 < n && self.input[i + 1] == '>' {
                    let t = TokenWithPos { token: Token::RedirectAppend, start: i, end: i + 2 };
                    proof {
                        lemma_token_views_push(tokens@, t);
                    }
                    tokens.push(t);
                    state = LexState::AfterRedirect;
                    i = i + 2;
                } else {
                    let t = TokenWithPos { token: Token::RedirectOut, start: i, end: i + 1 };
                    proof {
                        lemma_token_views_push(tokens@, t);
                    }
                    tokens.push(t);
                    state = LexState::AfterRedirect;
                    i = i + 1;
                }
            } else if c == '<' {
                let t = TokenWithPos { token: Token::RedirectIn, start: i, end: i + 1 };
                proof {
                    lemma_token_views_push(tokens@, t);
                }
                tokens.push(t);
                state = LexState::AfterRedirect;
                i = i + 1;
            } else if c == ';' {
                let t = TokenWithPos { token: Token::Semicolon, start: i, end: i + 1 };
                proof {
                    lemma_token_views_push(tokens@, t);
                }
                tokens.push(t);
                state = LexState::CommandStart;
                i = i + 1;
            } else if c == '\'' || c == '"' {
                match Self::scan_quoted_at(&self.input, i + 1, c) {
                    None => {
                        return Err(ShellError::lexer("Unclosed quote", i));
                    },
                    Some((word, j)) => {
                        proof {
                            lemma_scan_quoted_range(line, (i + 1) as int, c, false);
                        }
                        let t = Self::make_word_token(word, state, i, j);
                        proof {
                            lemma_token_views_push(tokens@, t);
                        }
                        tokens.push(t);
                        state = LexState::InCommand;
                        i = j;
                    },
                }
            } else {
                proof {
                    lemma_scan_word_range(line, i as int, false);
                }
                let (word, j) = Self::scan_word_at(&self.input, i, false);
                let t = Self::make_word_token(word, state, i, j);
                proof {
                    lemma_token_views_push(tokens@, t);
                }
                tokens.push(t);
                state = LexState::InCommand;
                i = j;
            }
        }
        Ok(tokens)
    }

    /// Builds the positioned token for a scanned word.
    fn make_word_token(word: Vec<char>, st: LexState, start: usize, end: usize) -> (t:
        TokenWithPos)
        ensures
            t@ == (PosTokenView {
                token: classify_word(word@, st),
                start: start as int,
                end: end as int,
            }),
    {
        let is_flag = match st {
            LexState::CommandStart => false,
            LexState::AfterRedirect => false,
            LexState::InCommand => word.len() > 0 && word[0] == '-',
        };
        let text = text::string_of(&word);
        let token = match st {
            LexState::CommandStart => Token::Command(text),
            LexState::AfterRedirect => Token::Argument(text),
            LexState::InCommand => if is_flag {
                Token::Flag(text)
            } else {
                Token::Argument(text)
            },
        };
        TokenWithPos { token, start, end }
    }

    /// Scans an unquoted word; mirrors `scan_word`.
    fn scan_word_at(input: &Vec<char>, i: usize, esc: bool) -> (r: (Vec<char>, usize))
        requires
            i <= input@.len(),
        ensures
            r.0@ == scan_word(input@, i as int, esc).0,
            r.1 == scan_word(input@, i as int, esc).1,
        decreases input@.len() - i,
    {
        if i >= input.len() {
            (Vec::new(), i)
        } else {
            let c = input[i];
            if !esc && (c == ' ' || c == '\t' || c == '\n' || c == '\r' || c == '|' || c == '>'
                || c == '<' || c == ';') {
                (Vec::new(), i)
            } else {
                let next_esc = !esc && c == '\\';
                let (mut rest, j) = Self::scan_word_at(input, i + 1, next_esc);
                rest.insert(0, c);
                assert(rest@ =~= seq![c] + scan_word(input@, (i + 1) as int, next_esc).0);
                (rest, j)
            }
        }
    }

    /// Scans the inside of a quoted word; mirrors `scan_quoted`.
    fn scan_quoted_at(input: &Vec<char>, i: usize, q: char) -> (r: Option<(Vec<char>, usize)>)
        requires
            i <= input@.len(),
        ensures
            match r {
                Some(p) => scan_quoted(input@, i as int, q, false) == Some((p.0@, p.1 as int)),
                None => scan_quoted(input@, i as int, q, false) is None,
            },
    {
        Self::scan_quoted_rec(input, i, q, false)
    }

    fn scan_quoted_rec(input: &Vec<char>, i: usize, q: char, esc: bool) -> (r: Option<
        (Vec<char>, usize),
    >)
        requires
            i <= input@.len(),
        ensures
            match r {
                Some(p) => scan_quoted(input@, i as int, q, esc) == Some((p.0@, p.1 as int)),
                None => scan_quoted(input@, i as int, q, esc) is None,
            },
        decreases input@.len() - i,
    {
        if i >= input.len() {
            None
        } else {
            let c = input[i];
            if !esc && c != '\\' && c == q {
                Some((Vec::new(), i + 1))
            } else {
                let next_esc = !esc && c == '\\';
                match Self::scan_quoted_rec(input, i + 1, q, next_esc) {
                    None => None,
                    Some((mut rest, j)) => {
                        let ghost w2 = rest@;
                        rest.insert(0, c);
                        proof {
                            assert(scan_quoted(input@, (i + 1) as int, q, next_esc) == Some(
                                (w2, j as int),
                            ));
                            assert(scan_quoted(input@, i as int, q, esc) == Some(
                                (seq![input@[i as int]] + w2, j as int),
                            ));
                            assert(rest@ =~= seq![c] + w2);
                        }
                        Some((rest, j))
                    },
                }
            }
        }
    }
}

} // verus!
