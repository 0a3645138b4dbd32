//! The built-in command registry: the uniform interface every built-in
//! satisfies, and the lookup from command name to built-in. The registry
//! is immutable; the executor must not assume which names are registered
//! beyond what `get_command` answers.

use vstd::prelude::*;

use vstd::string::StringExecFns;

use crate::ast::strings_view;
use crate::echo::{echo_output, Echo};
use crate::error::ShellError;
use crate::streams::{InStream, OutStream};

verus! {

/// The interface of a built-in: run synchronously with the current three
/// stream handles, the effects being whatever it writes to them.
pub trait Command {
    fn execute(
        &self,
        args: &Vec<String>,
        stdin: &mut InStream,
        stdout: &mut OutStream,
        stderr: &mut OutStream,
    ) -> Result<(), ShellError>;
}

/// The built-ins the registry knows, as one dispatchable value.
pub enum Builtin {
    Echo(Echo),
}

/// Whether a command name is a registered built-in.
pub open spec fn is_builtin_name(name: Seq<char>) -> bool {
    name == "echo"@
}

/// What a built-in of the given name writes to its output stream when
/// run with the given arguments.
pub open spec fn builtin_output(name: Seq<char>, argv: Seq<Seq<char>>) -> Seq<char> {
    echo_output(argv)
}

impl Builtin {
    /// The name this built-in is registered under.
    pub closed spec fn reg_name(&self) -> Seq<char> {
        match self {
            Builtin::Echo(_) => "echo"@,
        }
    }

    /// Runs the built-in: it writes `builtin_output` of its name and
    /// arguments to `stdout`, touches neither other stream, and
    /// succeeds.
    pub fn run(
        &self,
        args: &Vec<String>,
        stdin: &mut InStream,
        stdout: &mut OutStream,
        stderr: &mut OutStream,
    ) -> (r: Result<(), ShellError>)
        ensures
            r is Ok,
            final(stdout)@ == old(stdout)@ + builtin_output(
                self.reg_name(),
                strings_view(args@),
            ),
            final(stdin)@ == old(stdin)@,
            final(stderr)@ == old(stderr)@,
    {
        match self {
            Builtin::Echo(e) => e.execute(args, stdin, stdout, stderr),
        }
    }
}

/// Looks a command name up among the built-ins.
pub fn get_command(name: &str) -> (r: Option<Builtin>)
    ensures
        r matches Some(b) ==> is_builtin_name(name@) && b.reg_name() == name@,
        r is None ==> !is_builtin_name(name@),
{
    if name.to_owned() == String::from_str("echo") {
        Some(Builtin::Echo(Echo))
    } else {
        None
    }
}

} // verus!
