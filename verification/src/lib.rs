//! A verified core for a small interactive shell.
//!
//! The crate parses command lines (variable expansion, quoting, pipelines,
//! environment-assignment prefixes), implements the builtin commands
//! (`echo`, `pwd`, `exit`, `cat`, `wc`, `grep`) over plain byte and string
//! values, and decides how a pipeline is to be executed.  Everything that
//! touches the operating system — reading files, spawning processes, wiring
//! OS pipes — is left to the embedding program, which hands the results in
//! as values.

pub mod builtins;
pub mod env;
pub mod grep;
pub mod parser;
pub mod session;
pub mod text;
pub mod types;

pub use types::{CommandSpec, Pipeline, RunResult, ShellControl, ShellError};
