//! The laws of the interpreter, each proved over the same models the
//! public contracts use: `eval` for execution, `spec_tokenize` and
//! `spec_parse` for the two front stages.

use vstd::prelude::*;

use crate::ast::{wf_ast, AstView};
use crate::commands::is_builtin_name;
use crate::error::ShellErrorView;
use crate::executor::{eval, exit_failure_message, EvalOut};
use crate::lexer::{
    classify_word, is_quote_char, is_space_char, lex_from, scan_quoted, scan_word, spec_tokenize,
    LexState,
};
use crate::lexer::{lemma_scan_quoted_range, lemma_scan_word_range};
use crate::parser::{
    collect_words, lemma_spec_parse_simple_range, spec_parse, spec_parse_command, spec_parse_line,
    spec_parse_pipe_rest, spec_parse_pipeline, spec_parse_redirects, spec_parse_seq_rest,
    spec_parse_simple, ParseIssue,
};
use crate::tokens::{PosTokenView, TokenView};

verus! {

/// A pipeline feeds exactly the left side's whole output to the right
/// side as its input, nothing of the left side's error stream among it;
/// the right side's own two outputs reach the caller unchanged, after
/// whatever the left side wrote to the error stream.
pub proof fn lemma_pipeline_feeds_left_output(
    left: AstView,
    right: AstView,
    input: Seq<char>,
    fs: Map<Seq<char>, Seq<char>>,
)
    ensures
        ({
            let l = eval(left, input, fs);
            let p = eval(
                AstView::Pipeline { left: Box::new(left), right: Box::new(right) },
                input,
                fs,
            );
            l.ok is Ok ==> {
                let r = eval(right, l.out, l.fs);
                &&& p.ok == r.ok
                &&& p.out == r.out
                &&& p.err == l.err + r.err
                &&& p.fs == r.fs
            }
        }),
{
}

/// A failed left side ends the pipeline at once: its failure is the
/// pipeline's, nothing reaches the caller's output, and the right side
/// never runs.
pub proof fn lemma_pipeline_left_failure_short_circuits(
    left: AstView,
    right: AstView,
    input: Seq<char>,
    fs: Map<Seq<char>, Seq<char>>,
)
    ensures
        ({
            let l = eval(left, input, fs);
            let p = eval(
                AstView::Pipeline { left: Box::new(left), right: Box::new(right) },
                input,
                fs,
            );
            l.ok is Err ==> p == (EvalOut {
                ok: l.ok,
                out: Seq::<char>::empty(),
                err: l.err,
                fs: l.fs,
            })
        }),
{
}

/// Writing through an out-redirection and reading the same file back
/// through an in-redirection round-trips: the file afterwards holds
/// exactly what the command wrote, and the later command reads exactly
/// that text as its input.
pub proof fn lemma_redirect_round_trip(
    writer: AstView,
    reader: AstView,
    file: Seq<char>,
    input: Seq<char>,
    input2: Seq<char>,
    fs: Map<Seq<char>, Seq<char>>,
)
    ensures
        ({
            let w = eval(
                AstView::Redirect {
                    command: Box::new(writer),
                    operator: crate::tokens::TokenView::RedirectOut,
                    file,
                },
                input,
                fs,
            );
            let written = eval(writer, input, fs.insert(file, Seq::empty())).out;
            &&& w.fs.contains_key(file)
            &&& w.fs[file] == written
            &&& eval(
                AstView::Redirect {
                    command: Box::new(reader),
                    operator: crate::tokens::TokenView::RedirectIn,
                    file,
                },
                input2,
                w.fs,
            ) == eval(reader, written, w.fs)
        }),
{
}

/// An append-redirection run twice keeps both outputs, in order, never
/// truncating between the runs: for a command that leaves the file table
/// as it found it, the file afterwards holds what it held before,
/// then the first run's output, then the second's.
pub proof fn lemma_append_twice_keeps_order(
    cmd: AstView,
    file: Seq<char>,
    input: Seq<char>,
    fs: Map<Seq<char>, Seq<char>>,
)
    requires
        fs.contains_key(file),
        ({
            let a1 = eval(cmd, input, fs);
            &&& a1.fs == fs
            &&& eval(cmd, input, a1.fs.insert(file, fs[file] + a1.out)).fs == a1.fs.insert(
                file,
                fs[file] + a1.out,
            )
        }),
    ensures
        ({
            let node = AstView::Redirect {
                command: Box::new(cmd),
                operator: crate::tokens::TokenView::RedirectAppend,
                file,
            };
            let once = eval(node, input, fs);
            let twice = eval(node, input, once.fs);
            let out1 = eval(cmd, input, fs).out;
            let out2 = eval(cmd, input, once.fs).out;
            &&& once.fs[file] == fs[file] + out1
            &&& twice.fs[file] == (fs[file] + out1) + out2
        }),
{
    let node = AstView::Redirect {
        command: Box::new(cmd),
        operator: crate::tokens::TokenView::RedirectAppend,
        file,
    };
    assert(fs.insert(file, fs[file]) =~= fs);
    let once = eval(node, input, fs);
    assert(once.fs =~= fs.insert(file, fs[file] + eval(cmd, input, fs).out));
    let base2 = once.fs[file];
    assert(once.fs.insert(file, base2) =~= once.fs);
}

/// The chosen sequence semantics: when the left side fails, the sequence
/// fails with exactly that failure and the right side never runs — its
/// output, errors and file effects are absent.
pub proof fn lemma_sequence_left_failure_stops(
    left: AstView,
    right: AstView,
    input: Seq<char>,
    fs: Map<Seq<char>, Seq<char>>,
)
    ensures
        ({
            let l = eval(left, input, fs);
            l.ok is Err ==> eval(
                AstView::Sequence { left: Box::new(left), right: Box::new(right) },
                input,
                fs,
            ) == l
        }),
{
}

/// A name with no registered built-in fails as a command that cannot be
/// located, carrying that name — a different failure kind than the
/// execution failure a located-but-failing external command yields, so
/// the two cannot be mistaken for each other.
pub proof fn lemma_not_found_distinct_from_exit_failure(
    name: Seq<char>,
    flags: Seq<Seq<char>>,
    args: Seq<Seq<char>>,
    input: Seq<char>,
    fs: Map<Seq<char>, Seq<char>>,
    code: int,
)
    requires
        !is_builtin_name(name),
    ensures
        eval(AstView::Command { name, flags, args }, input, fs).ok == Err::<
            (),
            ShellErrorView,
        >(ShellErrorView::CommandNotFound(name)),
        ShellErrorView::CommandNotFound(name) != ShellErrorView::Execution(
            exit_failure_message(name, code),
        ),
{
}

/// A failed tokenizing points at the opening quote that was never
/// closed: the reported position lies within the line — never at its end
/// — a quote character stands there, and scanning from just past it
/// reaches the end of the line without finding the closing quote.
pub proof fn lemma_unclosed_quote_error_position(s: Seq<char>)
    ensures
        spec_tokenize(s) matches Err(p) ==> 0 <= p < s.len() && is_quote_char(s[p])
            && scan_quoted(s, p + 1, s[p], false) is None,
{
    lemma_lex_from_error_position(s, 0, LexState::CommandStart, Seq::empty());
}

proof fn lemma_lex_from_error_position(s: Seq<char>, i: int, st: LexState, acc: Seq<PosTokenView>)
    requires
        0 <= i <= s.len(),
    ensures
        lex_from(s, i, st, acc) matches Err(p) ==> 0 <= p < s.len() && is_quote_char(s[p])
            && scan_quoted(s, p + 1, s[p], false) is None,
    decreases s.len() - i,
{
    if 0 <= i < s.len() {
        let c = s[i];
        if is_space_char(c) {
            lemma_lex_from_error_position(s, i + 1, st, acc);
        } else if c == '|' {
            lemma_lex_from_error_position(s, i + 1, LexState::CommandStart,
                acc.push(PosTokenView { token: TokenView::Pipe, start: i, end: i + 1 }));
        } else if c == '>' {
            if i + 1 < s.len() && s[i + 1] == '>' {
                lemma_lex_from_error_position(s, i + 2, LexState::AfterRedirect,
                    acc.push(PosTokenView { token: TokenView::RedirectAppend, start: i, end: i + 2 }));
            } else {
                lemma_lex_from_error_position(s, i + 1, LexState::AfterRedirect,
                    acc.push(PosTokenView { token: TokenView::RedirectOut, start: i, end: i + 1 }));
            }
        } else if c == '<' {
            lemma_lex_from_error_position(s, i + 1, LexState::AfterRedirect,
                acc.push(PosTokenView { token: TokenView::RedirectIn, start: i, end: i + 1 }));
        } else if c == ';' {
            lemma_lex_from_error_position(s, i + 1, LexState::CommandStart,
                acc.push(PosTokenView { token: TokenView::Semicolon, start: i, end: i + 1 }));
        } else if is_quote_char(c) {
            lemma_scan_quoted_range(s, i + 1, c, false);
            match scan_quoted(s, i + 1, c, false) {
                None => {},
                Some(r) => {
                    lemma_lex_from_error_position(s, r.1, LexState::InCommand,
                        acc.push(PosTokenView { token: classify_word(r.0, st), start: i, end: r.1 }));
                },
            }
        } else {
            lemma_scan_word_range(s, i, false);
            let j = scan_word(s, i, false).1;
            lemma_lex_from_error_position(s, j, LexState::InCommand,
                acc.push(PosTokenView {
                    token: classify_word(scan_word(s, i, false).0, st),
                    start: i,
                    end: j,
                }));
        }
    }
}

/// Position `k` begins a statement: it is the list's start, or follows a
/// pipe or a semicolon.
pub open spec fn starts_statement(ts: Seq<TokenView>, k: int) -> bool {
    k == 0 || ts[k - 1] is Pipe || ts[k - 1] is Semicolon
}

/// The shape every tokenized line has: no `EOF` marker, and a `Command`
/// token only where a statement begins.
pub open spec fn lexed_shape(ts: Seq<TokenView>) -> bool {
    &&& forall|k: int| 0 <= k < ts.len() ==> !((#[trigger] ts[k]) is EOF)
    &&& forall|k: int| 0 <= k < ts.len() && (#[trigger] ts[k]) is Command ==> starts_statement(
        ts,
        k,
    )
}

/// The token views of a positioned-token list, positions dropped.
pub open spec fn plain_of(ts: Seq<PosTokenView>) -> Seq<TokenView> {
    ts.map_values(|t: PosTokenView| t.token)
}

proof fn lemma_shape_push(acc: Seq<PosTokenView>, t: PosTokenView)
    requires
        lexed_shape(plain_of(acc)),
        !(t.token is EOF),
        t.token is Command ==> (acc.len() == 0 || acc.last().token is Pipe
            || acc.last().token is Semicolon),
    ensures
        lexed_shape(plain_of(acc.push(t))),
        plain_of(acc.push(t)) == plain_of(acc).push(t.token),
{
    assert(plain_of(acc.push(t)) =~= plain_of(acc).push(t.token));
    let ps = plain_of(acc.push(t));
    let n = acc.len() as int;
    assert forall|k: int| 0 <= k < ps.len() && (#[trigger] ps[k]) is Command implies
        starts_statement(ps, k) by {
        if k < n {
            assert(ps[k] == plain_of(acc)[k]);
            assert(starts_statement(plain_of(acc), k));
            if k > 0 {
                assert(ps[k - 1] == plain_of(acc)[k - 1]);
            }
        } else {
            if n > 0 {
                assert(ps[n - 1] == acc.last().token);
            }
        }
    }
}

proof fn lemma_lex_from_shape(s: Seq<char>, i: int, st: LexState, acc: Seq<PosTokenView>)
    requires
        0 <= i <= s.len(),
        lexed_shape(plain_of(acc)),
        st is CommandStart ==> (acc.len() == 0 || acc.last().token is Pipe
            || acc.last().token is Semicolon),
    ensures
        lex_from(s, i, st, acc) matches Ok(ts) ==> lexed_shape(plain_of(ts)),
    decreases s.len() - i,
{
    if 0 <= i < s.len() {
        let c = s[i];
        if is_space_char(c) {
            lemma_lex_from_shape(s, i + 1, st, acc);
        } else if c == '|' {
            let t = PosTokenView { token: TokenView::Pipe, start: i, end: i + 1 };
            lemma_shape_push(acc, t);
            lemma_lex_from_shape(s, i + 1, LexState::CommandStart, acc.push(t));
        } else if c == '>' {
            if i + 1 < s.len() && s[i + 1] == '>' {
                let t = PosTokenView { token: TokenView::RedirectAppend, start: i, end: i + 2 };
                lemma_shape_push(acc, t);
                lemma_lex_from_shape(s, i + 2, LexState::AfterRedirect, acc.push(t));
            } else {
                let t = PosTokenView { token: TokenView::RedirectOut, start: i, end: i + 1 };
                lemma_shape_push(acc, t);
                lemma_lex_from_shape(s, i + 1, LexState::AfterRedirect, acc.push(t));
            }
        } else if c == '<' {
            let t = PosTokenView { token: TokenView::RedirectIn, start: i, end: i + 1 };
            lemma_shape_push(acc, t);
            lemma_lex_from_shape(s, i + 1, LexState::AfterRedirect, acc.push(t));
        } else if c == ';' {
            let t = PosTokenView { token: TokenView::Semicolon, start: i, end: i + 1 };
            lemma_shape_push(acc, t);
            lemma_lex_from_shape(s, i + 1, LexState::CommandStart, acc.push(t));
        } else if is_quote_char(c) {
            lemma_scan_quoted_range(s, i + 1, c, false);
            match scan_quoted(s, i + 1, c, false) {
                None => {},
                Some(r) => {
                    let t = PosTokenView { token: classify_word(r.0, st), start: i, end: r.1 };
                    lemma_shape_push(acc, t);
                    lemma_lex_from_shape(s, r.1, LexState::InCommand, acc.push(t));
                },
            }
        } else {
            lemma_scan_word_range(s, i, false);
            let w = scan_word(s, i, false).0;
            let j = scan_word(s, i, false).1;
            let t = PosTokenView { token: classify_word(w, st), start: i, end: j };
            lemma_shape_push(acc, t);
            lemma_lex_from_shape(s, j, LexState::InCommand, acc.push(t));
        }
    }
}

/// Every successfully tokenized line has the lexed shape.
pub proof fn lemma_tokenize_shape(s: Seq<char>)
    ensures
        spec_tokenize(s) matches Ok(ts) ==> lexed_shape(plain_of(ts)),
{
    assert(plain_of(Seq::empty()) =~= Seq::<TokenView>::empty());
    lemma_lex_from_shape(s, 0, LexState::CommandStart, Seq::empty());
}

proof fn lemma_collect_words_stop(
    ts: Seq<TokenView>,
    i: int,
    flags: Seq<Seq<char>>,
    args: Seq<Seq<char>>,
)
    requires
        0 <= i <= ts.len(),
    ensures
        ({
            let j = collect_words(ts, i, flags, args).2;
            &&& i <= j <= ts.len()
            &&& (j < ts.len() ==> !(ts[j] is Flag) && !(ts[j] is Argument))
            &&& (j > i ==> ts[j - 1].spec_is_word())
        }),
    decreases ts.len() - i,
{
    if 0 <= i < ts.len() {
        match ts[i] {
            TokenView::Flag(w) => lemma_collect_words_stop(ts, i + 1, flags.push(w), args),
            TokenView::Argument(w) => lemma_collect_words_stop(ts, i + 1, flags, args.push(w)),
            _ => {},
        }
    }
}

proof fn lemma_parse_simple_stop(ts: Seq<TokenView>, i: int)
    requires
        0 <= i <= ts.len(),
    ensures
        spec_parse_simple(ts, i) matches Ok(r) ==> i < r.1 <= ts.len() && ts[
            r.1 - 1
        ].spec_is_word(),
{
    if 0 <= i < ts.len() && ts[i] is Command {
        lemma_collect_words_stop(ts, i + 1, Seq::empty(), Seq::empty());
    }
}

proof fn lemma_parse_redirects_stop(ts: Seq<TokenView>, i: int, acc: AstView)
    requires
        0 <= i <= ts.len(),
    ensures
        spec_parse_redirects(ts, i, acc) matches Ok(r) ==> i <= r.1 <= ts.len() && (r.1 < ts.len()
            ==> !ts[r.1].spec_is_redirect_op()) && (r.1 > i ==> ts[r.1 - 1].spec_is_word()),
    decreases ts.len() - i,
{
    if 0 <= i < ts.len() {
        let op = ts[i];
        if op.spec_is_redirect_op() && i + 1 < ts.len() {
            match ts[i + 1] {
                TokenView::Argument(f) => {
                    lemma_parse_redirects_stop(
                        ts,
                        i + 2,
                        AstView::Redirect { command: Box::new(acc), operator: op, file: f },
                    );
                },
                _ => {},
            }
        }
    }
}

proof fn lemma_parse_command_stop(ts: Seq<TokenView>, i: int)
    requires
        0 <= i <= ts.len(),
    ensures
        spec_parse_command(ts, i) matches Ok(r) ==> i < r.1 <= ts.len() && ts[
            r.1 - 1
        ].spec_is_word() && (r.1 < ts.len() ==> !ts[r.1].spec_is_redirect_op()),
{
    lemma_parse_simple_stop(ts, i);
    match spec_parse_simple(ts, i) {
        Ok(r) => lemma_parse_redirects_stop(ts, r.1, r.0),
        Err(_) => {},
    }
}

proof fn lemma_parse_pipe_rest_stop(ts: Seq<TokenView>, i: int, acc: AstView)
    requires
        0 < i <= ts.len(),
        ts[i - 1].spec_is_word(),
        i < ts.len() ==> !ts[i].spec_is_redirect_op(),
    ensures
        spec_parse_pipe_rest(ts, i, acc) matches Ok(r) ==> 0 < r.1 <= ts.len() && ts[
            r.1 - 1
        ].spec_is_word() && (r.1 < ts.len() ==> !(ts[r.1] is Pipe) && !ts[r.1].spec_is_redirect_op()),
    decreases ts.len() - i,
{
    if i < ts.len() && ts[i] is Pipe {
        lemma_parse_command_stop(ts, i + 1);
        crate::parser::lemma_spec_parse_command_range(ts, i + 1);
        match spec_parse_command(ts, i + 1) {
            Ok(r) => {
                lemma_parse_pipe_rest_stop(
                    ts,
                    r.1,
                    AstView::Pipeline { left: Box::new(acc), right: Box::new(r.0) },
                );
            },
            Err(_) => {},
        }
    }
}

proof fn lemma_parse_pipeline_stop(ts: Seq<TokenView>, i: int)
    requires
        0 <= i <= ts.len(),
    ensures
        spec_parse_pipeline(ts, i) matches Ok(r) ==> 0 < r.1 <= ts.len() && ts[
            r.1 - 1
        ].spec_is_word() && (r.1 < ts.len() ==> !(ts[r.1] is Pipe) && !ts[r.1].spec_is_redirect_op()),
{
    lemma_parse_command_stop(ts, i);
    match spec_parse_command(ts, i) {
        Ok(r) => lemma_parse_pipe_rest_stop(ts, r.1, r.0),
        Err(_) => {},
    }
}

proof fn lemma_parse_seq_rest_stop(ts: Seq<TokenView>, i: int, acc: AstView)
    requires
        0 < i <= ts.len(),
        ts[i - 1].spec_is_word(),
        i < ts.len() ==> !(ts[i] is Pipe) && !ts[i].spec_is_redirect_op(),
    ensures
        spec_parse_seq_rest(ts, i, acc) matches Ok(r) ==> 0 < r.1 <= ts.len() && ts[
            r.1 - 1
        ].spec_is_word() && (r.1 < ts.len() ==> !(ts[r.1] is Semicolon) && !(ts[r.1] is Pipe)
            && !ts[r.1].spec_is_redirect_op()),
    decreases ts.len() - i,
{
    if i < ts.len() && ts[i] is Semicolon {
        lemma_parse_pipeline_stop(ts, i + 1);
        crate::parser::lemma_spec_parse_pipeline_range(ts, i + 1);
        match spec_parse_pipeline(ts, i + 1) {
            Ok(r) => {
                lemma_parse_seq_rest_stop(
                    ts,
                    r.1,
                    AstView::Sequence { left: Box::new(acc), right: Box::new(r.0) },
                );
            },
            Err(_) => {},
        }
    }
}

proof fn lemma_parse_line_stop(ts: Seq<TokenView>)
    ensures
        spec_parse_line(ts, 0) matches Ok(r) ==> 0 < r.1 <= ts.len() && ts[
            r.1 - 1
        ].spec_is_word() && (r.1 < ts.len() ==> !(ts[r.1] is Semicolon) && !(ts[r.1] is Pipe)
            && !ts[r.1].spec_is_redirect_op()),
{
    lemma_parse_pipeline_stop(ts, 0);
    match spec_parse_pipeline(ts, 0) {
        Ok(r) => lemma_parse_seq_rest_stop(ts, r.1, r.0),
        Err(_) => {},
    }
}

/// Lexing then parsing drops no token: tokenizing is total and yields
/// tokens or a typed failure, and a parse that succeeds has, by
/// `spec_parse`'s own definition, consumed the whole token list — a
/// leftover token is the `Unexpected token after command` violation,
/// never silence.
pub proof fn lemma_parse_consumes_all(ts: Seq<TokenView>)
    ensures
        spec_parse(ts) matches Ok(a) ==> (spec_parse_line(ts, 0) matches Ok(p) && p.1 == ts.len()
            && p.0 == a),
{
}

/// On a tokenized line, the only token the grammar can leave unread is a
/// flag or argument word — one trailing a redirection's filename. A
/// derivation that stops early therefore stands on such a word, and the
/// whole parse reports the leftover-token violation.
pub proof fn lemma_trailing_token_is_a_word(s: Seq<char>, ts: Seq<PosTokenView>)
    requires
        spec_tokenize(s) == Ok::<Seq<PosTokenView>, int>(ts),
    ensures
        ({
            let tv = plain_of(ts);
            spec_parse_line(tv, 0) matches Ok(p) ==> (p.1 < tv.len() ==> ((tv[p.1] is Flag
                || tv[p.1] is Argument) && spec_parse(tv) == Err::<AstView, ParseIssue>(
                ParseIssue::TrailingTokens,
            )))
        }),
{
    let tv = plain_of(ts);
    lemma_tokenize_shape(s);
    lemma_parse_line_stop(tv);
    match spec_parse_line(tv, 0) {
        Ok(p) => {
            if p.1 < tv.len() {
                assert(!(tv[p.1] is EOF));
                if tv[p.1] is Command {
                    assert(starts_statement(tv, p.1));
                    assert(tv[p.1 - 1].spec_is_word());
                    assert(false);
                }
            }
        },
        Err(_) => {},
    }
}

proof fn lemma_parse_simple_wf(ts: Seq<TokenView>, i: int)
    ensures
        spec_parse_simple(ts, i) matches Ok(r) ==> wf_ast(r.0),
{
}

proof fn lemma_parse_redirects_wf(ts: Seq<TokenView>, i: int, acc: AstView)
    requires
        0 <= i <= ts.len(),
        wf_ast(acc),
    ensures
        spec_parse_redirects(ts, i, acc) matches Ok(r) ==> wf_ast(r.0),
    decreases ts.len() - i,
{
    if 0 <= i < ts.len() {
        let op = ts[i];
        if op.spec_is_redirect_op() && i + 1 < ts.len() {
            match ts[i + 1] {
                TokenView::Argument(f) => {
                    lemma_parse_redirects_wf(
                        ts,
                        i + 2,
                        AstView::Redirect { command: Box::new(acc), operator: op, file: f },
                    );
                },
                _ => {},
            }
        }
    }
}

proof fn lemma_parse_command_wf(ts: Seq<TokenView>, i: int)
    requires
        0 <= i <= ts.len(),
    ensures
        spec_parse_command(ts, i) matches Ok(r) ==> wf_ast(r.0),
{
    lemma_parse_simple_wf(ts, i);
    lemma_spec_parse_simple_range(ts, i);
    match spec_parse_simple(ts, i) {
        Ok(r) => lemma_parse_redirects_wf(ts, r.1, r.0),
        Err(_) => {},
    }
}

proof fn lemma_parse_pipe_rest_wf(ts: Seq<TokenView>, i: int, acc: AstView)
    requires
        0 <= i <= ts.len(),
        wf_ast(acc),
    ensures
        spec_parse_pipe_rest(ts, i, acc) matches Ok(r) ==> wf_ast(r.0),
    decreases ts.len() - i,
{
    if 0 <= i < ts.len() && ts[i] is Pipe {
        lemma_parse_command_wf(ts, i + 1);
        crate::parser::lemma_spec_parse_command_range(ts, i + 1);
        match spec_parse_command(ts, i + 1) {
            Ok(r) => {
                lemma_parse_pipe_rest_wf(
                    ts,
                    r.1,
                    AstView::Pipeline { left: Box::new(acc), right: Box::new(r.0) },
                );
            },
            Err(_) => {},
        }
    }
}

proof fn lemma_parse_pipeline_wf(ts: Seq<TokenView>, i: int)
    requires
        0 <= i <= ts.len(),
    ensures
        spec_parse_pipeline(ts, i) matches Ok(r) ==> wf_ast(r.0),
{
    lemma_parse_command_wf(ts, i);
    crate::parser::lemma_spec_parse_command_range(ts, i);
    match spec_parse_command(ts, i) {
        Ok(r) => lemma_parse_pipe_rest_wf(ts, r.1, r.0),
        Err(_) => {},
    }
}

proof fn lemma_parse_seq_rest_wf(ts: Seq<TokenView>, i: int, acc: AstView)
    requires
        0 <= i <= ts.len(),
        wf_ast(acc),
    ensures
        spec_parse_seq_rest(ts, i, acc) matches Ok(r) ==> wf_ast(r.0),
    decreases ts.len() - i,
{
    if 0 <= i < ts.len() && ts[i] is Semicolon {
        lemma_parse_pipeline_wf(ts, i + 1);
        crate::parser::lemma_spec_parse_pipeline_range(ts, i + 1);
        match spec_parse_pipeline(ts, i + 1) {
            Ok(r) => {
                lemma_parse_seq_rest_wf(
                    ts,
                    r.1,
                    AstView::Sequence { left: Box::new(acc), right: Box::new(r.0) },
                );
            },
            Err(_) => {},
        }
    }
}

/// Every tree a successful parse yields satisfies the data model's
/// invariant: command names are non-empty, and redirection operators are
/// redirection tokens.
pub proof fn lemma_parse_yields_wf_ast(ts: Seq<TokenView>)
    ensures
        spec_parse(ts) matches Ok(a) ==> wf_ast(a),
{
    lemma_parse_pipeline_wf(ts, 0);
    crate::parser::lemma_spec_parse_pipeline_range(ts, 0);
    match spec_parse_pipeline(ts, 0) {
        Ok(r) => lemma_parse_seq_rest_wf(ts, r.1, r.0),
        Err(_) => {},
    }
}

/// A simple command touches no file: evaluating it leaves the file
/// table exactly as it found it, and neither its result nor its output
/// depends on the table at all.
pub proof fn lemma_command_preserves_files(
    name: Seq<char>,
    flags: Seq<Seq<char>>,
    args: Seq<Seq<char>>,
    input: Seq<char>,
    fs: Map<Seq<char>, Seq<char>>,
    other: Map<Seq<char>, Seq<char>>,
)
    ensures
        eval(AstView::Command { name, flags, args }, input, fs).fs == fs,
        eval(AstView::Command { name, flags, args }, input, fs).out == eval(
            AstView::Command { name, flags, args },
            input,
            other,
        ).out,
        eval(AstView::Command { name, flags, args }, input, fs).ok == eval(
            AstView::Command { name, flags, args },
            input,
            other,
        ).ok,
{
}

/// The append law for a simple command, with nothing assumed: appending
/// its output to a file twice leaves the file holding what it held
/// before, then the first run's output, then the second's — equal
/// outputs, since a simple command's output does not depend on the file
/// table.
pub proof fn lemma_append_twice_for_simple_command(
    name: Seq<char>,
    flags: Seq<Seq<char>>,
    args: Seq<Seq<char>>,
    file: Seq<char>,
    input: Seq<char>,
    fs: Map<Seq<char>, Seq<char>>,
)
    requires
        fs.contains_key(file),
    ensures
        ({
            let cmd = AstView::Command { name, flags, args };
            let node = AstView::Redirect {
                command: Box::new(cmd),
                operator: crate::tokens::TokenView::RedirectAppend,
                file,
            };
            let once = eval(node, input, fs);
            let twice = eval(node, input, once.fs);
            let out = eval(cmd, input, fs).out;
            &&& once.fs[file] == fs[file] + out
            &&& twice.fs[file] == (fs[file] + out) + out
        }),
{
    let cmd = AstView::Command { name, flags, args };
    let node = AstView::Redirect {
        command: Box::new(cmd),
        operator: crate::tokens::TokenView::RedirectAppend,
        file,
    };
    assert(fs.insert(file, fs[file]) =~= fs);
    let once = eval(node, input, fs);
    let out = eval(cmd, input, fs).out;
    assert(once.fs =~= fs.insert(file, fs[file] + out));
    assert(eval(cmd, input, once.fs.insert(file, once.fs[file])).out == out);
    assert(once.fs.insert(file, once.fs[file]) =~= once.fs);
}

/// Token spans stand in source order and never overlap.
pub open spec fn spans_ordered(ts: Seq<PosTokenView>) -> bool {
    forall|a: int, b: int| 0 <= a < b < ts.len() ==> (#[trigger] ts[a]).end <= (#[trigger] ts[b]).start
}

/// Some token's span holds position `p`.
pub open spec fn covered(ts: Seq<PosTokenView>, p: int) -> bool {
    exists|j: int| 0 <= j < ts.len() && (#[trigger] ts[j]).start <= p < ts[j].end
}

proof fn lemma_spans_push(acc: Seq<PosTokenView>, t: PosTokenView, i: int)
    requires
        spans_ordered(acc),
        forall|j: int| 0 <= j < acc.len() ==> 0 <= (#[trigger] acc[j]).start < acc[j].end <= i,
        0 <= i <= t.start < t.end,
    ensures
        spans_ordered(acc.push(t)),
        forall|j: int| 0 <= j < acc.push(t).len() ==> 0 <= (#[trigger] acc.push(t)[j]).start
            < acc.push(t)[j].end <= t.end,
{
    let ps = acc.push(t);
    assert forall|a: int, b: int| 0 <= a < b < ps.len() implies (#[trigger] ps[a]).end <= (
    #[trigger] ps[b]).start by {
        if b < acc.len() {
            assert(ps[a] == acc[a] && ps[b] == acc[b]);
        } else {
            assert(ps[a] == acc[a] && ps[b] == t);
        }
    }
    assert forall|j: int| 0 <= j < ps.len() implies 0 <= (#[trigger] ps[j]).start < ps[j].end
        <= t.end by {
        if j < acc.len() {
            assert(ps[j] == acc[j]);
        } else {
            assert(ps[j] == t);
        }
    }
}

proof fn lemma_lex_from_spans(s: Seq<char>, i: int, st: LexState, acc: Seq<PosTokenView>)
    requires
        0 <= i <= s.len(),
        spans_ordered(acc),
        forall|j: int| 0 <= j < acc.len() ==> 0 <= (#[trigger] acc[j]).start < acc[j].end <= i,
    ensures
        lex_from(s, i, st, acc) matches Ok(ts) ==> ({
            &&& spans_ordered(ts)
            &&& acc.len() <= ts.len()
            &&& (forall|j: int| 0 <= j < acc.len() ==> (#[trigger] ts[j]) == acc[j])
            &&& (forall|j: int| 0 <= j < ts.len() ==> 0 <= (#[trigger] ts[j]).start < ts[j].end
                <= s.len())
            &&& (forall|p: int| i <= p < s.len() && !is_space_char(s[p]) ==> covered(ts, p))
        }),
    decreases s.len() - i,
{
    if 0 <= i < s.len() {
        let c = s[i];
        if is_space_char(c) {
            lemma_lex_from_spans(s, i + 1, st, acc);
        } else if c == '|' || c == '<' || c == ';' || (c == '>' && !(i + 1 < s.len() && s[i + 1]
            == '>')) {
            let t = if c == '|' {
                PosTokenView { token: TokenView::Pipe, start: i, end: i + 1 }
            } else if c == '<' {
                PosTokenView { token: TokenView::RedirectIn, start: i, end: i + 1 }
            } else if c == ';' {
                PosTokenView { token: TokenView::Semicolon, start: i, end: i + 1 }
            } else {
                PosTokenView { token: TokenView::RedirectOut, start: i, end: i + 1 }
            };
            let st2 = if c == '|' || c == ';' {
                LexState::CommandStart
            } else {
                LexState::AfterRedirect
            };
            lemma_spans_push(acc, t, i);
            lemma_lex_from_spans(s, i + 1, st2, acc.push(t));
            assert(lex_from(s, i, st, acc) == lex_from(s, i + 1, st2, acc.push(t)));
            lemma_coverage_step(s, i, i + 1, acc, t, lex_from(s, i, st, acc));
        } else if c == '>' {
            let t = PosTokenView { token: TokenView::RedirectAppend, start: i, end: i + 2 };
            lemma_spans_push(acc, t, i);
            lemma_lex_from_spans(s, i + 2, LexState::AfterRedirect, acc.push(t));
            lemma_coverage_step(s, i, i + 2, acc, t, lex_from(s, i, st, acc));
        } else if is_quote_char(c) {
            lemma_scan_quoted_range(s, i + 1, c, false);
            match scan_quoted(s, i + 1, c, false) {
                None => {},
                Some(r) => {
                    let t = PosTokenView { token: classify_word(r.0, st), start: i, end: r.1 };
                    lemma_spans_push(acc, t, i);
                    lemma_lex_from_spans(s, r.1, LexState::InCommand, acc.push(t));
                    lemma_coverage_step(s, i, r.1, acc, t, lex_from(s, i, st, acc));
                },
            }
        } else {
            lemma_scan_word_range(s, i, false);
            let w = scan_word(s, i, false).0;
            let j = scan_word(s, i, false).1;
            let t = PosTokenView { token: classify_word(w, st), start: i, end: j };
            lemma_spans_push(acc, t, i);
            lemma_lex_from_spans(s, j, LexState::InCommand, acc.push(t));
            lemma_coverage_step(s, i, j, acc, t, lex_from(s, i, st, acc));
        }
    }
}

/// One emitted token whose span is `[i, e)` extends coverage from `e`
/// back to `i`: whatever the rest of the scan covers, plus the span
/// itself, is covered in the final token list.
proof fn lemma_coverage_step(
    s: Seq<char>,
    i: int,
    e: int,
    acc: Seq<PosTokenView>,
    t: PosTokenView,
    r: Result<Seq<PosTokenView>, int>,
)
    requires
        t.start == i,
        t.end == e,
        i < e,
        r matches Ok(ts) ==> ({
            &&& acc.push(t).len() <= ts.len()
            &&& (forall|j: int| 0 <= j < acc.push(t).len() ==> (#[trigger] ts[j]) == acc.push(
                t,
            )[j])
            &&& (forall|p: int| e <= p < s.len() && !is_space_char(s[p]) ==> covered(ts, p))
        }),
    ensures
        r matches Ok(ts) ==> (forall|p: int| i <= p < s.len() && !is_space_char(s[p]) ==> covered(
            ts,
            p,
        )),
{
    match r {
        Ok(ts) => {
            assert forall|p: int| i <= p < s.len() && !is_space_char(s[p]) implies covered(
                ts,
                p,
            ) by {
                if p < e {
                    assert(ts[acc.len() as int] == t);
                    assert(0 <= acc.len() < ts.len() && ts[acc.len() as int].start <= p
                        < ts[acc.len() as int].end);
                }
            }
        },
        Err(_) => {},
    }
}

/// Every character of a tokenized line lands in at most one lexeme, and
/// every non-whitespace character in exactly one: the token spans stand
/// in source order, never overlap, stay within the line, and together
/// hold every position where a non-whitespace character stands.
pub proof fn lemma_every_character_lands_in_one_lexeme(s: Seq<char>)
    ensures
        spec_tokenize(s) matches Ok(ts) ==> ({
            &&& spans_ordered(ts)
            &&& (forall|j: int| 0 <= j < ts.len() ==> 0 <= (#[trigger] ts[j]).start < ts[j].end
                <= s.len())
            &&& (forall|p: int| 0 <= p < s.len() && !is_space_char(s[p]) ==> covered(ts, p))
        }),
{
    lemma_lex_from_spans(s, 0, LexState::CommandStart, Seq::empty());
}

} // verus!
