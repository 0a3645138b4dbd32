//! The executor: a synchronous, depth-first walk of the command tree
//! against three stream handles and the file table.
//!
//! - A `Command` node looks its name up among the built-ins; an
//!   unregistered name is an external command. Under `execute_ast` —
//!   a walk with no host to spawn for it — such a name fails as not
//!   locatable; under `execute_with_replies` the walk stops at it and
//!   asks the host to spawn it, inside pipelines, redirections and
//!   sequences alike.
//! - A `Redirect` node rebinds one stream to the named file for exactly
//!   the recursive execution of its child: an out-redirection truncates
//!   at open and leaves the child's buffered output as the file, an
//!   append-redirection adds that output to the file at the scope's
//!   close, an in-redirection hands the file's contents to the child as
//!   its input, and a missing input file is an execution failure. The
//!   file scope closes on success and failure alike.
//! - A `Pipeline` node materializes the left side's whole output into a
//!   buffer, then runs the right side with that buffer as its input; a
//!   left-side failure returns at once and the right side never runs.
//! - A `Sequence` node runs left then right with the same handles, and —
//!   deliberately, unlike the usual `;` of shells — stops at a left-side
//!   failure without running the right side.
//!
//! The whole walk is pure recursion with no retry anywhere; every failure
//! is terminal for its node and propagates upward.
//!
//! Spawning a real external process is outside work the host program
//! performs, one `SpawnRequest` at a time around `execute_with_replies`;
//! `spawn_result_of` and `external_command_result` are the judgement
//! that turns what the host observed of a spawn into this library's
//! result.
//!
//! One caveat of the buffered model: an append-redirection adds the
//! child's buffered output to the file when the scope closes, so a
//! subtree that itself appends to the same file lands before the outer
//! output, where a write-through file handle would interleave the two
//! as written.

use vstd::prelude::*;

use vstd::string::StringExecFns;

use crate::ast::{strings_view, AstNode, AstView};
use crate::commands::{builtin_output, get_command, is_builtin_name};
use crate::error::{ShellError, ShellErrorView};
use crate::fs::Fs;
use crate::streams::{InStream, OutStream};
use crate::text;
use crate::tokens::Token;

verus! {

/// Everything one evaluation yields: the result, what was written to the
/// two output streams, and the file table afterwards.
pub ghost struct EvalOut {
    pub ok: Result<(), ShellErrorView>,
    pub out: Seq<char>,
    pub err: Seq<char>,
    pub fs: Map<Seq<char>, Seq<char>>,
}

/// The diagnostic for reading a file the table does not have.
pub open spec fn open_in_fail_message(file: Seq<char>) -> Seq<char> {
    "Cannot open file '"@ + file + "': file not found"@
}

/// The meaning of one command tree, given the input text and the file
/// table: what executing it returns, writes and leaves behind.
pub open spec fn eval(a: AstView, input: Seq<char>, fs: Map<Seq<char>, Seq<char>>) -> EvalOut
    decreases a,
{
    match a {
        AstView::Command { name, flags, args } => {
            if is_builtin_name(name) {
                EvalOut {
                    ok: Ok(()),
                    out: builtin_output(name, flags + args),
                    err: Seq::empty(),
                    fs,
                }
            } else {
                EvalOut {
                    ok: Err(ShellErrorView::CommandNotFound(name)),
                    out: Seq::empty(),
                    err: Seq::empty(),
                    fs,
                }
            }
        },
        AstView::Redirect { command, operator, file } => {
            if operator is RedirectOut {
                let inner = eval(*command, input, fs.insert(file, Seq::empty()));
                EvalOut {
                    ok: inner.ok,
                    out: Seq::empty(),
                    err: inner.err,
                    fs: inner.fs.insert(file, inner.out),
                }
            } else if operator is RedirectAppend {
                let base = if fs.contains_key(file) {
                    fs[file]
                } else {
                    Seq::empty()
                };
                let inner = eval(*command, input, fs.insert(file, base));
                let close_base = if inner.fs.contains_key(file) {
                    inner.fs[file]
                } else {
                    Seq::empty()
                };
                EvalOut {
                    ok: inner.ok,
                    out: Seq::empty(),
                    err: inner.err,
                    fs: inner.fs.insert(file, close_base + inner.out),
                }
            } else if operator is RedirectIn {
                if fs.contains_key(file) {
                    eval(*command, fs[file], fs)
                } else {
                    EvalOut {
                        ok: Err(ShellErrorView::Execution(open_in_fail_message(file))),
                        out: Seq::empty(),
                        err: Seq::empty(),
                        fs,
                    }
                }
            } else {
                EvalOut {
                    ok: Err(ShellErrorView::Execution("Unsupported redirection operator"@)),
                    out: Seq::empty(),
                    err: Seq::empty(),
                    fs,
                }
            }
        },
        AstView::Pipeline { left, right } => {
            let l = eval(*left, input, fs);
            if l.ok is Err {
                EvalOut { ok: l.ok, out: Seq::empty(), err: l.err, fs: l.fs }
            } else {
                let r = eval(*right, l.out, l.fs);
                EvalOut { ok: r.ok, out: r.out, err: l.err + r.err, fs: r.fs }
            }
        },
        AstView::Sequence { left, right } => {
            let l = eval(*left, input, fs);
            if l.ok is Err {
                l
            } else {
                let r = eval(*right, input, l.fs);
                EvalOut { ok: r.ok, out: l.out + r.out, err: l.err + r.err, fs: r.fs }
            }
        },
    }
}

proof fn lemma_add_empty(s: Seq<char>)
    ensures
        s + Seq::<char>::empty() == s,
{
    assert(s + Seq::<char>::empty() =~= s);
}

/// The tree walker. It holds no state of its own; each walk threads the
/// caller's streams and file table.
pub struct Executor;

impl Executor {
    /// A fresh executor.
    pub fn new() -> (r: Executor)
        ensures
            true,
    {
        Executor
    }

    /// Executes a command tree against the given input stream, output
    /// streams and file table, with no host to spawn external commands:
    /// every name that is no built-in fails as not locatable. Everything
    /// it returns, writes and changes is exactly what `eval` says of the
    /// tree; the input stream is left as it was. A host that can spawn
    /// drives `execute_with_replies` instead.
    pub fn execute_ast(
        &self,
        ast: &AstNode,
        stdin: &mut InStream,
        stdout: &mut OutStream,
        stderr: &mut OutStream,
        fs: &mut Fs,
    ) -> (r: Result<(), ShellError>)
        ensures
            ({
                let e = eval(ast@, old(stdin)@, old(fs)@);
                &&& final(stdin)@ == old(stdin)@
                &&& final(stdout)@ == old(stdout)@ + e.out
                &&& final(stderr)@ == old(stderr)@ + e.err
                &&& final(fs)@ == e.fs
                &&& (match r {
                    Ok(u) => e.ok is Ok,
                    Err(err) => e.ok matches Err(ev) && err@ == ev,
                })
            }),
        decreases *ast,
    {
        let ghost in0 = stdin@;
        let ghost out0 = stdout@;
        let ghost err0 = stderr@;
        let ghost fs0 = fs@;
        match ast {
            AstNode::Command { name, flags, args } => {
                let r = self.execute_command(name, flags, args, stdin, stdout, stderr);
                r
            },
            AstNode::Redirect { command, operator, file } => {
                match operator {
                    Token::RedirectOut => {
                        fs.write(file, String::new());
                        let mut buffer = OutStream::new();
                        let res = self.execute_ast(&**command, stdin, &mut buffer, stderr, fs);
                        proof {
                            let inner = eval(command@, in0, fs0.insert(file@, Seq::empty()));
                            assert(buffer@ =~= inner.out);
                            lemma_add_empty(out0);
                        }
                        fs.write(file, buffer.into_string());
                        res
                    },
                    Token::RedirectAppend => {
                        let base = match fs.read(file) {
                            Some(d) => d,
                            None => String::new(),
                        };
                        fs.write(file, base);
                        let mut buffer = OutStream::new();
                        let res = self.execute_ast(&**command, stdin, &mut buffer, stderr, fs);
                        let close_base = match fs.read(file) {
                            Some(d) => d,
                            None => String::new(),
                        };
                        proof {
                            let b = if fs0.contains_key(file@) {
                                fs0[file@]
                            } else {
                                Seq::<char>::empty()
                            };
                            let inner = eval(command@, in0, fs0.insert(file@, b));
                            assert(buffer@ =~= inner.out);
                            lemma_add_empty(out0);
                        }
                        fs.write(file, close_base.concat(buffer.contents()));
                        res
                    },
                    Token::RedirectIn => {
                        match fs.read(file) {
                            Some(contents) => {
                                let mut sub_in = InStream::new(contents);
                                let res = self.execute_ast(
                                    &**command,
                                    &mut sub_in,
                                    stdout,
                                    stderr,
                                    fs,
                                );
                                res
                            },
                            None => {
                                let msg = String::from_str("Cannot open file '").concat(
                                    file.as_str(),
                                ).concat("': file not found");
                                proof {
                                    lemma_add_empty(out0);
                                    lemma_add_empty(err0);
                                }
                                Err(ShellError::Execution(msg))
                            },
                        }
                    },
                    _ => {
                        proof {
                            lemma_add_empty(out0);
                            lemma_add_empty(err0);
                        }
                        Err(ShellError::execution("Unsupported redirection operator"))
                    },
                }
            },
            AstNode::Pipeline { left, right } => {
                let mut buffer = OutStream::new();
                let res_l = self.execute_ast(&**left, stdin, &mut buffer, stderr, fs);
                let ghost l = eval(left@, in0, fs0);
                match res_l {
                    Err(e) => {
                        proof {
                            lemma_add_empty(out0);
                        }
                        Err(e)
                    },
                    Ok(_) => {
                        proof {
                            assert(buffer@ =~= l.out);
                        }
                        let mut sub_in = InStream::new(buffer.into_string());
                        let res_r = self.execute_ast(&**right, &mut sub_in, stdout, stderr, fs);
                        proof {
                            let rr = eval(right@, l.out, l.fs);
                            assert((err0 + l.err) + rr.err =~= err0 + (l.err + rr.err));
                        }
                        res_r
                    },
                }
            },
            AstNode::Sequence { left, right } => {
                let res_l = self.execute_ast(&**left, stdin, stdout, stderr, fs);
                let ghost l = eval(left@, in0, fs0);
                match res_l {
                    Err(e) => Err(e),
                    Ok(_) => {
                        let res_r = self.execute_ast(&**right, stdin, stdout, stderr, fs);
                        proof {
                            let rr = eval(right@, in0, l.fs);
                            assert((out0 + l.out) + rr.out =~= out0 + (l.out + rr.out));
                            assert((err0 + l.err) + rr.err =~= err0 + (l.err + rr.err));
                        }
                        res_r
                    },
                }
            },
        }
    }

    /// One simple command: a registered built-in runs with the flags and
    /// arguments joined into one list, in source order; any other name
    /// cannot be located here.
    fn execute_command(
        &self,
        name: &String,
        flags: &Vec<String>,
        args: &Vec<String>,
        stdin: &mut InStream,
        stdout: &mut OutStream,
        stderr: &mut OutStream,
    ) -> (r: Result<(), ShellError>)
        ensures
            final(stdin)@ == old(stdin)@,
            final(stderr)@ == old(stderr)@,
            is_builtin_name(name@) ==> r is Ok && final(stdout)@ == old(stdout)@
                + builtin_output(name@, strings_view(flags@) + strings_view(args@)),
            !is_builtin_name(name@) ==> (r matches Err(e) && e@ == ShellErrorView::CommandNotFound(
                name@,
            ) && final(stdout)@ == old(stdout)@),
    {
        match get_command(name.as_str()) {
            Some(builtin) => {
                let all_args = combined_args(flags, args);
                builtin.run(&all_args, stdin, stdout, stderr)
            },
            None => Err(ShellError::CommandNotFound(name.clone())),
        }
    }
}

/// The flags and then the other arguments, one list, source order kept.
fn combined_args(flags: &Vec<String>, args: &Vec<String>) -> (r: Vec<String>)
    ensures
        strings_view(r@) == strings_view(flags@) + strings_view(args@),
{
    let mut all_args: Vec<String> = Vec::new();
    let nf = flags.len();
    let mut i: usize = 0;
    proof {
        assert(strings_view(all_args@) =~= strings_view(flags@).take(0));
    }
    while i < nf
        invariant
            i <= nf,
            nf == flags@.len(),
            strings_view(all_args@) == strings_view(flags@).take(i as int),
        decreases nf - i,
    {
        let ghost prev = all_args@;
        all_args.push(flags[i].clone());
        proof {
            assert(strings_view(all_args@) =~= strings_view(prev).push(flags@[i as int]@));
            assert(strings_view(flags@).take((i + 1) as int) =~= strings_view(flags@).take(
                i as int,
            ).push(flags@[i as int]@));
        }
        i = i + 1;
    }
    let na = args.len();
    let mut j: usize = 0;
    proof {
        assert(strings_view(flags@).take(nf as int) =~= strings_view(flags@));
        assert(strings_view(flags@) + strings_view(args@).take(0) =~= strings_view(flags@));
    }
    while j < na
        invariant
            j <= na,
            na == args@.len(),
            strings_view(all_args@) == strings_view(flags@) + strings_view(args@).take(j as int),
        decreases na - j,
    {
        let ghost prev = all_args@;
        all_args.push(args[j].clone());
        proof {
            assert(strings_view(all_args@) =~= strings_view(prev).push(args@[j as int]@));
            assert(strings_view(flags@) + strings_view(args@).take((j + 1) as int) =~= (
            strings_view(flags@) + strings_view(args@).take(j as int)).push(args@[j as int]@));
        }
        j = j + 1;
    }
    proof {
        assert(strings_view(flags@) + strings_view(args@).take(na as int) =~= strings_view(flags@)
            + strings_view(args@));
    }
    all_args
}

/// What the host observed of one attempt to spawn an external process:
/// the executable could not be located, the spawn or wait failed for
/// another cause, or the process ran and exited with a status code.
#[derive(Debug, Clone)]
pub enum SpawnOutcome {
    NotFound,
    SpawnFailure(String),
    Exited(i32),
}

/// One decimal digit.
pub open spec fn decimal_digit(n: int) -> char {
    if n == 0 {
        '0'
    } else if n == 1 {
        '1'
    } else if n == 2 {
        '2'
    } else if n == 3 {
        '3'
    } else if n == 4 {
        '4'
    } else if n == 5 {
        '5'
    } else if n == 6 {
        '6'
    } else if n == 7 {
        '7'
    } else if n == 8 {
        '8'
    } else {
        '9'
    }
}

/// The decimal digits of a non-negative number, most significant first.
pub open spec fn decimal_rep(n: int) -> Seq<char>
    recommends
        n >= 0,
    decreases n,
        via decimal_rep_decreases
{
    if n < 10 {
        seq![decimal_digit(n)]
    } else {
        decimal_rep(n / 10).push(decimal_digit(n % 10))
    }
}

#[via_fn]
proof fn decimal_rep_decreases(n: int) {
    if n >= 10 {
        assert(0 <= n / 10 < n) by (nonlinear_arith)
            requires
                n >= 10,
        ;
    }
}

/// The decimal rendering of a number, a minus sign in front when it is
/// negative.
pub open spec fn signed_decimal_rep(n: int) -> Seq<char> {
    if n < 0 {
        seq!['-'] + decimal_rep(-n)
    } else {
        decimal_rep(n)
    }
}

/// The diagnostic for a spawn or wait that failed for a named cause.
pub open spec fn spawn_failure_message(name: Seq<char>, cause: Seq<char>) -> Seq<char> {
    "Failed to execute '"@ + name + "': "@ + cause
}

/// The diagnostic for a process that exited with a non-zero status.
pub open spec fn exit_failure_message(name: Seq<char>, code: int) -> Seq<char> {
    "Command '"@ + name + "' failed with exit code: "@ + signed_decimal_rep(code)
}

fn decimal_digit_char(d: u64) -> (c: char)
    requires
        d < 10,
    ensures
        c == decimal_digit(d as int),
{
    if d == 0 {
        '0'
    } else if d == 1 {
        '1'
    } else if d == 2 {
        '2'
    } else if d == 3 {
        '3'
    } else if d == 4 {
        '4'
    } else if d == 5 {
        '5'
    } else if d == 6 {
        '6'
    } else if d == 7 {
        '7'
    } else if d == 8 {
        '8'
    } else {
        '9'
    }
}

fn decimal_chars(n: u64) -> (r: Vec<char>)
    ensures
        r@ == decimal_rep(n as int),
    decreases n,
{
    if n < 10 {
        let mut v: Vec<char> = Vec::new();
        v.push(decimal_digit_char(n));
        proof {
            assert(v@ =~= seq![decimal_digit(n as int)]);
        }
        v
    } else {
        proof {
            assert(0 <= n as int / 10 < n as int) by (nonlinear_arith)
                requires
                    n >= 10,
            ;
        }
        let mut v = decimal_chars(n / 10);
        v.push(decimal_digit_char(n % 10));
        v
    }
}

/// The executor's judgement of a spawn observation: an unlocatable
/// executable is a command-not-found failure carrying the name; any
/// other spawn or wait failure, and any non-zero exit status, is an
/// execution failure whose message embeds the command name and the
/// cause or the code; a zero exit status is success.
pub open spec fn spawn_result_of(name: Seq<char>, o: SpawnOutcome) -> Result<
    (),
    ShellErrorView,
> {
    match o {
        SpawnOutcome::NotFound => Err(ShellErrorView::CommandNotFound(name)),
        SpawnOutcome::SpawnFailure(cause) => Err(
            ShellErrorView::Execution(spawn_failure_message(name, cause@)),
        ),
        SpawnOutcome::Exited(code) => if code == 0 {
            Ok(())
        } else {
            Err(ShellErrorView::Execution(exit_failure_message(name, code as int)))
        },
    }
}

/// Judges what the host observed of an external spawn, exactly as
/// `spawn_result_of` demands.
pub fn external_command_result(name: &String, outcome: &SpawnOutcome) -> (r: Result<
    (),
    ShellError,
>)
    ensures
        (match r {
            Ok(u) => spawn_result_of(name@, *outcome) is Ok,
            Err(e) => spawn_result_of(name@, *outcome) matches Err(ev) && e@ == ev,
        }),
{
    match outcome {
        SpawnOutcome::NotFound => Err(ShellError::CommandNotFound(name.clone())),
        SpawnOutcome::SpawnFailure(cause) => {
            let msg = String::from_str("Failed to execute '").concat(name.as_str()).concat(
                "': ",
            ).concat(cause.as_str());
            Err(ShellError::Execution(msg))
        },
        SpawnOutcome::Exited(code) => {
            let c = *code;
            if c == 0 {
                Ok(())
            } else {
                let mag: u64 = if c < 0 {
                    (-(c as i64)) as u64
                } else {
                    c as u64
                };
                let digits = decimal_chars(mag);
                let mut tail = String::new();
                if c < 0 {
                    tail.append("-");
                }
                tail.append(text::string_of(&digits).as_str());
                proof {
                    if c < 0 {
                        reveal_strlit("-");
                        assert("-"@ =~= seq!['-']);
                        assert(tail@ =~= seq!['-'] + decimal_rep(mag as int));
                    } else {
                        assert(tail@ =~= decimal_rep(mag as int));
                    }
                    assert(signed_decimal_rep(c as int) == tail@);
                }
                let msg = String::from_str("Command '").concat(name.as_str()).concat(
                    "' failed with exit code: ",
                ).concat(tail.as_str());
                Err(ShellError::Execution(msg))
            }
        },
    }
}

/// What one spawned external handed back, as the host observed it: the
/// spawn's outcome, and the text the process wrote to its two streams.
#[derive(Debug, Clone)]
pub struct SpawnReply {
    pub outcome: SpawnOutcome,
    pub stdout: String,
    pub stderr: String,
}

/// One spawn the walk needs the host to perform: the command's name,
/// its argument list, and the text standing on its input stream.
#[derive(Debug, Clone)]
pub struct SpawnRequest {
    pub name: String,
    pub argv: Vec<String>,
    pub input: String,
}

/// How one stepped walk ended: completed, with its result, its two
/// outputs and the file table afterwards; or stopped at the first
/// external command that has no reply yet.
pub enum StepResult {
    Done { result: Result<(), ShellError>, stdout: String, stderr: String, fs: Fs },
    NeedSpawn(SpawnRequest),
}

/// The mathematical shape of a stepped walk's end.
pub ghost enum StepView {
    Done(EvalOut),
    Need { name: Seq<char>, argv: Seq<Seq<char>>, input: Seq<char> },
}

/// A stepped walk's end together with how many replies the walk has
/// consumed so far.
pub ghost struct EvalStep {
    pub step: StepView,
    pub used: int,
}

/// The meaning of one command tree when the host answers for external
/// commands: the replies are consumed in depth-first order from index
/// `k`, one per external command reached, and the walk either completes
/// or stops at the first external with no reply left, naming what the
/// host must spawn. The tree-shape rules are those of `eval`; only a
/// `Command` node whose name is no built-in differs, taking its result
/// and outputs from its reply through `spawn_result_of`.
pub open spec fn eval_ext(
    a: AstView,
    input: Seq<char>,
    fs: Map<Seq<char>, Seq<char>>,
    replies: Seq<SpawnReply>,
    k: int,
) -> EvalStep
    decreases a,
{
    match a {
        AstView::Command { name, flags, args } => {
            if is_builtin_name(name) {
                EvalStep {
                    step: StepView::Done(
                        EvalOut {
                            ok: Ok(()),
                            out: builtin_output(name, flags + args),
                            err: Seq::empty(),
                            fs,
                        },
                    ),
                    used: k,
                }
            } else if k < replies.len() {
                EvalStep {
                    step: StepView::Done(
                        EvalOut {
                            ok: spawn_result_of(name, replies[k].outcome),
                            out: replies[k].stdout@,
                            err: replies[k].stderr@,
                            fs,
                        },
                    ),
                    used: k + 1,
                }
            } else {
                EvalStep { step: StepView::Need { name, argv: flags + args, input }, used: k }
            }
        },
        AstView::Redirect { command, operator, file } => {
            if operator is RedirectOut {
                let inner = eval_ext(*command, input, fs.insert(file, Seq::empty()), replies, k);
                match inner.step {
                    StepView::Need { .. } => inner,
                    StepView::Done(io) => EvalStep {
                        step: StepView::Done(
                            EvalOut {
                                ok: io.ok,
                                out: Seq::empty(),
                                err: io.err,
                                fs: io.fs.insert(file, io.out),
                            },
                        ),
                        used: inner.used,
                    },
                }
            } else if operator is RedirectAppend {
                let base = if fs.contains_key(file) {
                    fs[file]
                } else {
                    Seq::empty()
                };
                let inner = eval_ext(*command, input, fs.insert(file, base), replies, k);
                match inner.step {
                    StepView::Need { .. } => inner,
                    StepView::Done(io) => {
                        let close_base = if io.fs.contains_key(file) {
                            io.fs[file]
                        } else {
                            Seq::empty()
                        };
                        EvalStep {
                            step: StepView::Done(
                                EvalOut {
                                    ok: io.ok,
                                    out: Seq::empty(),
                                    err: io.err,
                                    fs: io.fs.insert(file, close_base + io.out),
                                },
                            ),
                            used: inner.used,
                        }
                    },
                }
            } else if operator is RedirectIn {
                if fs.contains_key(file) {
                    eval_ext(*command, fs[file], fs, replies, k)
                } else {
                    EvalStep {
                        step: StepView::Done(
                            EvalOut {
                                ok: Err(ShellErrorView::Execution(open_in_fail_message(file))),
                                out: Seq::empty(),
                                err: Seq::empty(),
                                fs,
                            },
                        ),
                        used: k,
                    }
                }
            } else {
                EvalStep {
                    step: StepView::Done(
                        EvalOut {
                            ok: Err(
                                ShellErrorView::Execution("Unsupported redirection operator"@),
                            ),
                            out: Seq::empty(),
                            err: Seq::empty(),
                            fs,
                        },
                    ),
                    used: k,
                }
            }
        },
        AstView::Pipeline { left, right } => {
            let l = eval_ext(*left, input, fs, replies, k);
            match l.step {
                StepView::Need { .. } => l,
                StepView::Done(lo) => {
                    if lo.ok is Err {
                        EvalStep {
                            step: StepView::Done(
                                EvalOut { ok: lo.ok, out: Seq::empty(), err: lo.err, fs: lo.fs },
                            ),
                            used: l.used,
                        }
                    } else {
                        let r = eval_ext(*right, lo.out, lo.fs, replies, l.used);
                        match r.step {
                            StepView::Need { .. } => r,
                            StepView::Done(ro) => EvalStep {
                                step: StepView::Done(
                                    EvalOut {
                                        ok: ro.ok,
                                        out: ro.out,
                                        err: lo.err + ro.err,
                                        fs: ro.fs,
                                    },
                                ),
                                used: r.used,
                            },
                        }
                    }
                },
            }
        },
        AstView::Sequence { left, right } => {
            let l = eval_ext(*left, input, fs, replies, k);
            match l.step {
                StepView::Need { .. } => l,
                StepView::Done(lo) => {
                    if lo.ok is Err {
                        l
                    } else {
                        let r = eval_ext(*right, input, lo.fs, replies, l.used);
                        match r.step {
                            StepView::Need { .. } => r,
                            StepView::Done(ro) => EvalStep {
                                step: StepView::Done(
                                    EvalOut {
                                        ok: ro.ok,
                                        out: lo.out + ro.out,
                                        err: lo.err + ro.err,
                                        fs: ro.fs,
                                    },
                                ),
                                used: r.used,
                            },
                        }
                    }
                },
            }
        },
    }
}

/// A stepped walk consumes replies forwards and never past the end.
pub proof fn lemma_eval_ext_used_range(
    a: AstView,
    input: Seq<char>,
    fs: Map<Seq<char>, Seq<char>>,
    replies: Seq<SpawnReply>,
    k: int,
)
    requires
        0 <= k <= replies.len(),
    ensures
        k <= eval_ext(a, input, fs, replies, k).used <= replies.len(),
    decreases a,
{
    match a {
        AstView::Command { name, flags, args } => {},
        AstView::Redirect { command, operator, file } => {
            if operator is RedirectOut {
                lemma_eval_ext_used_range(*command, input, fs.insert(file, Seq::empty()), replies, k);
            } else if operator is RedirectAppend {
                let base = if fs.contains_key(file) {
                    fs[file]
                } else {
                    Seq::empty()
                };
                lemma_eval_ext_used_range(*command, input, fs.insert(file, base), replies, k);
            } else if operator is RedirectIn {
                if fs.contains_key(file) {
                    lemma_eval_ext_used_range(*command, fs[file], fs, replies, k);
                }
            }
        },
        AstView::Pipeline { left, right } => {
            lemma_eval_ext_used_range(*left, input, fs, replies, k);
            let l = eval_ext(*left, input, fs, replies, k);
            match l.step {
                StepView::Need { .. } => {},
                StepView::Done(lo) => {
                    if !(lo.ok is Err) {
                        lemma_eval_ext_used_range(*right, lo.out, lo.fs, replies, l.used);
                    }
                },
            }
        },
        AstView::Sequence { left, right } => {
            lemma_eval_ext_used_range(*left, input, fs, replies, k);
            let l = eval_ext(*left, input, fs, replies, k);
            match l.step {
                StepView::Need { .. } => {},
                StepView::Done(lo) => {
                    if !(lo.ok is Err) {
                        lemma_eval_ext_used_range(*right, input, lo.fs, replies, l.used);
                    }
                },
            }
        },
    }
}

proof fn lemma_empty_add(s: Seq<char>)
    ensures
        Seq::<char>::empty() + s == s,
{
    assert(Seq::<char>::empty() + s =~= s);
}

impl Executor {
    /// Executes a command tree with the host answering for external
    /// commands. The walk consumes one reply per external command, in
    /// depth-first order; when it reaches an external with no reply left
    /// it returns that command's `SpawnRequest` without any effect — the
    /// host performs the spawn, appends what it observed, and calls
    /// again. The end is exactly what `eval_ext` says of the tree, the
    /// input text, the file table and the replies.
    pub fn execute_with_replies(
        &self,
        ast: &AstNode,
        input: &String,
        fs: &Fs,
        replies: &Vec<SpawnReply>,
    ) -> (r: StepResult)
        ensures
            ({
                let e = eval_ext(ast@, input@, fs@, replies@, 0);
                match r {
                    StepResult::Done { result, stdout, stderr, fs: fs2 } => (e.step
                        matches StepView::Done(eo) && (match result {
                        Ok(u) => eo.ok is Ok,
                        Err(err) => eo.ok matches Err(ev) && err@ == ev,
                    }) && stdout@ == eo.out && stderr@ == eo.err && fs2@ == eo.fs),
                    StepResult::NeedSpawn(req) => (e.step matches StepView::Need {
                        name,
                        argv,
                        input: pin,
                    } && req.name@ == name && strings_view(req.argv@) == argv && req.input@
                        == pin),
                }
            }),
    {
        let (r, _) = self.step_node(ast, input, fs.duplicate(), replies, 0);
        r
    }

    /// One replayed walk of a subtree; mirrors `eval_ext`.
    fn step_node(
        &self,
        ast: &AstNode,
        input: &String,
        fs: Fs,
        replies: &Vec<SpawnReply>,
        used: usize,
    ) -> (r: (StepResult, usize))
        requires
            used <= replies@.len(),
        ensures
            ({
                let e = eval_ext(ast@, input@, fs@, replies@, used as int);
                &&& r.1 as int == e.used
                &&& used <= r.1 <= replies@.len()
                &&& (match r.0 {
                    StepResult::Done { result, stdout, stderr, fs: fs2 } => (e.step
                        matches StepView::Done(eo) && (match result {
                        Ok(u) => eo.ok is Ok,
                        Err(err) => eo.ok matches Err(ev) && err@ == ev,
                    }) && stdout@ == eo.out && stderr@ == eo.err && fs2@ == eo.fs),
                    StepResult::NeedSpawn(req) => (e.step matches StepView::Need {
                        name,
                        argv,
                        input: pin,
                    } && req.name@ == name && strings_view(req.argv@) == argv && req.input@
                        == pin),
                })
            }),
        decreases *ast,
    {
        match ast {
            AstNode::Command { name, flags, args } => {
                let all_args = combined_args(flags, args);
                match get_command(name.as_str()) {
                    Some(builtin) => {
                        let mut sin = InStream::new(input.clone());
                        let mut sout = OutStream::new();
                        let mut serr = OutStream::new();
                        let result = builtin.run(&all_args, &mut sin, &mut sout, &mut serr);
                        proof {
                            lemma_empty_add(
                                builtin_output(
                                    name@,
                                    strings_view(flags@) + strings_view(args@),
                                ),
                            );
                            lemma_empty_add(Seq::<char>::empty());
                        }
                        (
                            StepResult::Done {
                                result,
                                stdout: sout.into_string(),
                                stderr: serr.into_string(),
                                fs,
                            },
                            used,
                        )
                    },
                    None => {
                        if used < replies.len() {
                            let rep = &replies[used];
                            let result = external_command_result(name, &rep.outcome);
                            (
                                StepResult::Done {
                                    result,
                                    stdout: rep.stdout.clone(),
                                    stderr: rep.stderr.clone(),
                                    fs,
                                },
                                used + 1,
                            )
                        } else {
                            (
                                StepResult::NeedSpawn(
                                    SpawnRequest {
                                        name: name.clone(),
                                        argv: all_args,
                                        input: input.clone(),
                                    },
                                ),
                                used,
                            )
                        }
                    },
                }
            },
            AstNode::Redirect { command, operator, file } => {
                match operator {
                    Token::RedirectOut => {
                        let mut fs1 = fs;
                        fs1.write(file, String::new());
                        let (inner, u2) = self.step_node(&**command, input, fs1, replies, used);
                        match inner {
                            StepResult::NeedSpawn(req) => (StepResult::NeedSpawn(req), u2),
                            StepResult::Done { result, stdout, stderr, fs: mut fs2 } => {
                                fs2.write(file, stdout);
                                (
                                    StepResult::Done {
                                        result,
                                        stdout: String::new(),
                                        stderr,
                                        fs: fs2,
                                    },
                                    u2,
                                )
                            },
                        }
                    },
                    Token::RedirectAppend => {
                        let base = match fs.read(file) {
                            Some(d) => d,
                            None => String::new(),
                        };
                        let mut fs1 = fs;
                        fs1.write(file, base);
                        let (inner, u2) = self.step_node(&**command, input, fs1, replies, used);
                        match inner {
                            StepResult::NeedSpawn(req) => (StepResult::NeedSpawn(req), u2),
                            StepResult::Done { result, stdout, stderr, fs: mut fs2 } => {
                                let close_base = match fs2.read(file) {
                                    Some(d) => d,
                                    None => String::new(),
                                };
                                fs2.write(file, close_base.concat(stdout.as_str()));
                                (
                                    StepResult::Done {
                                        result,
                                        stdout: String::new(),
                                        stderr,
                                        fs: fs2,
                                    },
                                    u2,
                                )
                            },
                        }
                    },
                    Token::RedirectIn => {
                        match fs.read(file) {
                            Some(contents) => self.step_node(
                                &**command,
                                &contents,
                                fs,
                                replies,
                                used,
                            ),
                            None => {
                                let msg = String::from_str("Cannot open file '").concat(
                                    file.as_str(),
                                ).concat("': file not found");
                                (
                                    StepResult::Done {
                                        result: Err(ShellError::Execution(msg)),
                                        stdout: String::new(),
                                        stderr: String::new(),
                                        fs,
                                    },
                                    used,
                                )
                            },
                        }
                    },
                    _ => {
                        (
                            StepResult::Done {
                                result: Err(
                                    ShellError::execution("Unsupported redirection operator"),
                                ),
                                stdout: String::new(),
                                stderr: String::new(),
                                fs,
                            },
                            used,
                        )
                    },
                }
            },
            AstNode::Pipeline { left, right } => {
                let (l, u1) = self.step_node(&**left, input, fs, replies, used);
                match l {
                    StepResult::NeedSpawn(req) => (StepResult::NeedSpawn(req), u1),
                    StepResult::Done { result: lres, stdout: lout, stderr: lerr, fs: lfs } => {
                        match lres {
                            Err(e) => (
                                StepResult::Done {
                                    result: Err(e),
                                    stdout: String::new(),
                                    stderr: lerr,
                                    fs: lfs,
                                },
                                u1,
                            ),
                            Ok(_) => {
                                let (rr, u2) = self.step_node(&**right, &lout, lfs, replies, u1);
                                match rr {
                                    StepResult::NeedSpawn(req) => (
                                        StepResult::NeedSpawn(req),
                                        u2,
                                    ),
                                    StepResult::Done { result, stdout, stderr, fs: rfs } => {
                                        (
                                            StepResult::Done {
                                                result,
                                                stdout,
                                                stderr: lerr.concat(stderr.as_str()),
                                                fs: rfs,
                                            },
                                            u2,
                                        )
                                    },
                                }
                            },
                        }
                    },
                }
            },
            AstNode::Sequence { left, right } => {
                let (l, u1) = self.step_node(&**left, input, fs, replies, used);
                match l {
                    StepResult::NeedSpawn(req) => (StepResult::NeedSpawn(req), u1),
                    StepResult::Done { result: lres, stdout: lout, stderr: lerr, fs: lfs } => {
                        match lres {
                            Err(e) => (
                                StepResult::Done {
                                    result: Err(e),
                                    stdout: lout,
                                    stderr: lerr,
                                    fs: lfs,
                                },
                                u1,
                            ),
                            Ok(_) => {
                                let (rr, u2) = self.step_node(&**right, input, lfs, replies, u1);
                                match rr {
                                    StepResult::NeedSpawn(req) => (
                                        StepResult::NeedSpawn(req),
                                        u2,
                                    ),
                                    StepResult::Done { result, stdout, stderr, fs: rfs } => {
                                        (
                                            StepResult::Done {
                                                result,
                                                stdout: lout.concat(stdout.as_str()),
                                                stderr: lerr.concat(stderr.as_str()),
                                                fs: rfs,
                                            },
                                            u2,
                                        )
                                    },
                                }
                            },
                        }
                    },
                }
            },
        }
    }
}

} // verus!
