//! Shared data types of the shell core.

use vstd::prelude::*;

use vstd::string::*;

use crate::parser::ParseError;

verus! {

/// A single command of a pipeline: a name and its arguments.
#[derive(Debug)]
pub struct CommandSpec {
    /// Command name (builtin or external program).
    pub name: String,
    /// Arguments, not including the name.
    pub args: Vec<String>,
}

/// A command as mathematics: its name and arguments as character sequences.
pub ghost struct CmdV {
    pub name: Seq<char>,
    pub args: Seq<Seq<char>>,
}

impl View for CommandSpec {
    type V = CmdV;

    open spec fn view(&self) -> CmdV {
        CmdV { name: self.name@, args: self.args.deep_view() }
    }
}

/// An ordered, non-empty sequence of commands joined by pipes.
#[derive(Debug)]
pub struct Pipeline {
    pub commands: Vec<CommandSpec>,
}

impl View for Pipeline {
    type V = Seq<CmdV>;

    open spec fn view(&self) -> Seq<CmdV> {
        self.commands@.map_values(|c: CommandSpec| c@)
    }
}

impl Pipeline {
    /// The data-model invariant: at least one stage, and no stage with an
    /// empty command name.
    pub open spec fn wf(&self) -> bool {
        &&& self@.len() >= 1
        &&& forall|i: int| 0 <= i < self@.len() ==> (#[trigger] self@[i]).name.len() > 0
    }
}

/// Captured outcome of one external process run.
#[derive(Debug)]
pub struct RunResult {
    /// Exit code of the process.
    pub exit_code: i32,
    /// Captured stdout bytes.
    pub stdout: Vec<u8>,
    /// Captured stderr bytes.
    pub stderr: Vec<u8>,
}

/// What a builtin command produced: its control outcome and the bytes it
/// wrote to its two streams.
#[derive(Debug)]
pub struct BuiltinOutput {
    pub control: ShellControl,
    pub stdout: Vec<u8>,
    pub stderr: Vec<u8>,
}

/// The control outcome of one executed command.
#[derive(Debug, Clone, Copy, PartialEq, Eq, Structural)]
pub enum ShellControl {
    /// Keep the session running; the payload is the command's exit code.
    Continue(i32),
    /// Terminate the session with the given exit code.
    Exit(i32),
}

/// Errors of the interpreter itself (as opposed to non-zero command exits).
#[derive(Debug)]
pub enum ShellError {
    /// The line could not be parsed.
    Parse(ParseError),
    /// Reading or writing a stream failed; the payload is the error text.
    Io(String),
    /// An external process could not be run.
    Process(String),
}

impl ShellError {
    /// The message the interpreter prints for this error.
    pub open spec fn message_spec(&self) -> Seq<char> {
        match *self {
            ShellError::Parse(e) => "Parse error: "@ + e.message_spec(),
            ShellError::Io(m) => "I/O error: "@ + m@,
            ShellError::Process(m) => "Process error: "@ + m@,
        }
    }

    /// Renders the message, `Parse error: ...` / `I/O error: ...` /
    /// `Process error: ...`, exactly as `message_spec` says.
    pub fn message(&self) -> (s: String)
        ensures
            s@ == self.message_spec(),
    {
        match self {
            ShellError::Parse(e) => {
                let mut s = String::from_str("Parse error: ");
                s.append(e.message().as_str());
                s
            },
            ShellError::Io(m) => {
                let mut s = String::from_str("I/O error: ");
                s.append(m.as_str());
                s
            },
            ShellError::Process(m) => {
                let mut s = String::from_str("Process error: ");
                s.append(m.as_str());
                s
            },
        }
    }
}

} // verus!
