//! The `echo` built-in: joins its arguments with single spaces, decodes
//! backslash escape sequences, and writes the result and a newline to its
//! output stream.

use vstd::prelude::*;

use crate::ast::strings_view;
use crate::commands::Command;
use crate::error::ShellError;
use crate::streams::{InStream, OutStream};
use crate::text;

verus! {

/// What one escape sequence `\c` decodes to: the control characters for
/// `n`, `t`, `r` and `0`, the quoting characters themselves, and the
/// backslash; any other sequence stays as written.
pub open spec fn escape_expansion(c: char) -> Seq<char> {
    if c == 'n' {
        seq!['\n']
    } else if c == 't' {
        seq!['\t']
    } else if c == 'r' {
        seq!['\r']
    } else if c == '\\' {
        seq!['\\']
    } else if c == '"' {
        seq!['"']
    } else if c == '\'' {
        seq!['\'']
    } else if c == '0' {
        seq!['\0']
    } else {
        seq!['\\', c]
    }
}

/// Escape decoding from position `i` on: each backslash consumes the
/// following character as an escape sequence; a backslash standing at the
/// end of the text stays as written.
pub open spec fn process_escapes_from(s: Seq<char>, i: int) -> Seq<char>
    recommends
        0 <= i <= s.len(),
    decreases s.len() - i,
{
    if !(0 <= i < s.len()) {
        Seq::empty()
    } else if s[i] == '\\' {
        if i + 1 < s.len() {
            escape_expansion(s[i + 1]) + process_escapes_from(s, i + 2)
        } else {
            seq!['\\']
        }
    } else {
        seq![s[i]] + process_escapes_from(s, i + 1)
    }
}

/// Escape decoding of a whole text.
pub open spec fn process_escapes(s: Seq<char>) -> Seq<char> {
    process_escapes_from(s, 0)
}

/// The arguments joined with one space between each pair.
pub open spec fn join_with_spaces(args: Seq<Seq<char>>) -> Seq<char>
    decreases args.len(),
{
    if args.len() == 0 {
        Seq::empty()
    } else if args.len() == 1 {
        args[0]
    } else {
        join_with_spaces(args.drop_last()) + seq![' '] + args.last()
    }
}

/// Everything `echo` writes for the given arguments: a bare newline for
/// none, otherwise the space-joined arguments with escapes decoded,
/// newline-terminated.
pub open spec fn echo_output(args: Seq<Seq<char>>) -> Seq<char> {
    if args.len() == 0 {
        seq!['\n']
    } else {
        process_escapes(join_with_spaces(args)) + seq!['\n']
    }
}

/// The `echo` built-in.
pub struct Echo;

impl Echo {
    /// Decodes backslash escape sequences in the given text.
    pub fn process_escape_sequences(&self, input: &str) -> (r: String)
        ensures
            r@ == process_escapes(input@),
    {
        let ghost s = input@;
        let chars = text::chars_of(input);
        let n = chars.len();
        let mut out: Vec<char> = Vec::new();
        let mut i: usize = 0;
        while i < n
            invariant
                i <= n,
                n == s.len(),
                chars@ == s,
                process_escapes(s) == out@ + process_escapes_from(s, i as int),
            decreases n - i,
        {
            let ghost prev = out@;
            let c = chars[i];
            if c == '\\' {
                if i + 1 < n {
                    let c2 = chars[i + 1];
                    if c2 == 'n' {
                        out.push('\n');
                    } else if c2 == 't' {
                        out.push('\t');
                    } else if c2 == 'r' {
                        out.push('\r');
                    } else if c2 == '\\' {
                        out.push('\\');
                    } else if c2 == '"' {
                        out.push('"');
                    } else if c2 == '\'' {
                        out.push('\'');
                    } else if c2 == '0' {
                        out.push('\0');
                    } else {
                        out.push('\\');
                        out.push(c2);
                    }
                    proof {
                        assert(out@ =~= prev + escape_expansion(c2));
                        assert(prev + (escape_expansion(c2) + process_escapes_from(
                            s,
                            i + 2 as int,
                        )) =~= (prev + escape_expansion(c2)) + process_escapes_from(
                            s,
                            i + 2 as int,
                        ));
                    }
                    i = i + 2;
                } else {
                    out.push('\\');
                    proof {
                        assert(out@ =~= prev + seq!['\\']);
                        assert(process_escapes_from(s, (i + 1) as int) == Seq::<char>::empty());
                        assert(out@ + Seq::<char>::empty() =~= out@);
                    }
                    i = i + 1;
                }
            } else {
                out.push(c);
                proof {
                    assert(out@ =~= prev + seq![c]);
                    assert(prev + (seq![c] + process_escapes_from(s, i + 1 as int)) =~= (prev
                        + seq![c]) + process_escapes_from(s, i + 1 as int));
                }
                i = i + 1;
            }
        }
        proof {
            assert(out@ + process_escapes_from(s, n as int) =~= out@);
        }
        text::string_of(&out)
    }
}

impl Command for Echo {
    /// Writes the escape-decoded, space-joined arguments and a newline to
    /// `stdout`; reads nothing and never fails.
    fn execute(
        &self,
        args: &Vec<String>,
        stdin: &mut InStream,
        stdout: &mut OutStream,
        stderr: &mut OutStream,
    ) -> (r: Result<(), ShellError>)
        ensures
            r is Ok,
            final(stdout)@ == old(stdout)@ + echo_output(strings_view(args@)),
            final(stdin)@ == old(stdin)@,
            final(stderr)@ == old(stderr)@,
    {
        let ghost av = strings_view(args@);
        let n = args.len();
        if n == 0 {
            stdout.write_str("\n");
            proof {
                reveal_strlit("\n");
                assert("\n"@ =~= seq!['\n']);
            }
            return Ok(());
        }
        let mut joined: Vec<char> = Vec::new();
        let mut k: usize = 0;
        while k < n
            invariant
                k <= n,
                n == args@.len(),
                av == strings_view(args@),
                joined@ == join_with_spaces(av.take(k as int)),
            decreases n - k,
        {
            let ghost prev = joined@;
            if k > 0 {
                joined.push(' ');
            }
            let mut word = text::chars_of(args[k].as_str());
            joined.append(&mut word);
            proof {
                assert(av.take((k + 1) as int).drop_last() =~= av.take(k as int));
                assert(av.take((k + 1) as int).last() == av[k as int]);
                if k == 0 {
                    assert(joined@ =~= av[0]);
                    assert(av.take(1).len() == 1);
                } else {
                    assert(joined@ =~= (prev + seq![' ']) + av[k as int]);
                    assert(join_with_spaces(av.take((k + 1) as int)) == (prev + seq![' '])
                        + av[k as int]);
                }
            }
            k = k + 1;
        }
        proof {
            assert(av.take(n as int) =~= av);
        }
        let joined_text = text::string_of(&joined);
        let decoded = self.process_escape_sequences(joined_text.as_str());
        stdout.write_str(decoded.as_str());
        stdout.write_str("\n");
        proof {
            reveal_strlit("\n");
            assert("\n"@ =~= seq!['\n']);
            assert((old(stdout)@ + process_escapes(join_with_spaces(av))) + seq!['\n'] =~= old(
                stdout,
            )@ + (process_escapes(join_with_spaces(av)) + seq!['\n']));
        }
        Ok(())
    }
}

} // verus!
