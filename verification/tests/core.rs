//! Tests for one step of the interpreter loop and for the environment.

use minishell::env::{ShellEnv, ShellState};
use minishell::session::{run_single_line, LineOutcome};
use minishell::types::{ShellControl, ShellError};

fn fresh_state() -> ShellState {
    ShellState::from_pairs(&vec![])
}

#[test]
fn empty_or_whitespace_line_is_noop() {
    let mut state = fresh_state();
    let outcome = run_single_line(&mut state, "   ");
    assert!(matches!(outcome, LineOutcome::Done(ShellControl::Continue(0))));
}

#[test]
fn assignments_only_update_env_and_do_not_execute() {
    let mut state = fresh_state();
    let outcome = run_single_line(&mut state, "FOO=bar");
    assert!(matches!(outcome, LineOutcome::Done(ShellControl::Continue(0))));
    assert_eq!(state.env.get("FOO"), Some("bar".to_string()));
}

#[test]
fn parse_error_is_returned_from_run_single_line() {
    let mut state = fresh_state();
    let outcome = run_single_line(&mut state, "echo \"oops");
    match outcome {
        LineOutcome::Failed(ShellError::Parse(_)) => {}
        other => panic!("expected parse error, got: {:?}", other),
    }
}

#[test]
fn later_assignment_shadows_earlier_binding() {
    let mut env = ShellEnv::new();
    env.set("K".to_string(), "old".to_string());
    env.set("K".to_string(), "new".to_string());
    assert_eq!(env.get("K"), Some("new".to_string()));
    assert_eq!(env.get("MISSING"), None);
}

#[test]
fn assignments_on_a_line_persist_in_the_state() {
    let mut state = fresh_state();
    let outcome = run_single_line(&mut state, "A=1 B=2 echo $A");
    assert!(matches!(outcome, LineOutcome::Execute(_)));
    assert_eq!(state.env.get("A"), Some("1".to_string()));
    assert_eq!(state.env.get("B"), Some("2".to_string()));
}

#[test]
fn surrounding_whitespace_is_trimmed_before_parsing() {
    let mut state = fresh_state();
    let outcome = run_single_line(&mut state, " \t echo hi \t ");
    match outcome {
        LineOutcome::Execute(p) => {
            assert_eq!(p.commands.len(), 1);
            assert_eq!(p.commands[0].name, "echo");
            assert_eq!(p.commands[0].args, vec!["hi"]);
        }
        other => panic!("expected a pipeline, got: {:?}", other),
    }
}

#[test]
fn shell_error_messages_are_exact() {
    let io = ShellError::Io("stream closed".to_string());
    assert_eq!(io.message(), "I/O error: stream closed");
    let process = ShellError::Process("command not found: nope".to_string());
    assert_eq!(process.message(), "Process error: command not found: nope");
    let parse = ShellError::Parse(minishell::parser::ParseError::EmptyPipelineSegment);
    assert_eq!(parse.message(), "Parse error: empty pipeline segment");
}
