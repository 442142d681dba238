//! Tests for the line parser: tokenization, quoting, variable expansion,
//! assignment prefixes and pipeline segmentation.

use minishell::env::ShellEnv;
use minishell::parser::{parse_line, ParseError};

fn env_with(pairs: &[(&str, &str)]) -> ShellEnv {
    let mut env = ShellEnv::new();
    for (k, v) in pairs {
        env.set(k.to_string(), v.to_string());
    }
    env
}

#[test]
fn tokenizes_basic_words() {
    let env = ShellEnv::new();
    let parsed = parse_line("echo hello world", &env).unwrap();
    let pipeline = parsed.pipeline.unwrap();
    assert_eq!(pipeline.commands.len(), 1);
    assert_eq!(pipeline.commands[0].name, "echo");
    assert_eq!(pipeline.commands[0].args, vec!["hello", "world"]);
}

#[test]
fn tokenizes_quotes_as_single_arg() {
    let env = ShellEnv::new();
    let parsed = parse_line("echo \"Hello, world!\"", &env).unwrap();
    let cmd = &parsed.pipeline.unwrap().commands[0];
    assert_eq!(cmd.args, vec!["Hello, world!"]);
}

#[test]
fn tokenizes_single_quotes_as_single_arg() {
    let env = ShellEnv::new();
    let parsed = parse_line("echo 'a b'", &env).unwrap();
    let cmd = &parsed.pipeline.unwrap().commands[0];
    assert_eq!(cmd.args, vec!["a b"]);
}

#[test]
fn preserves_empty_quoted_argument() {
    let env = ShellEnv::new();
    let parsed = parse_line("echo \"\" x", &env).unwrap();
    let cmd = &parsed.pipeline.unwrap().commands[0];
    assert_eq!(cmd.args, vec!["", "x"]);
}

#[test]
fn parses_assignments_only() {
    let env = ShellEnv::new();
    let parsed = parse_line("FILE=example.txt", &env).unwrap();
    assert_eq!(
        parsed.assignments,
        vec![("FILE".to_string(), "example.txt".to_string())]
    );
    assert!(parsed.pipeline.is_none());
}

#[test]
fn parses_assignments_before_command() {
    let env = ShellEnv::new();
    let parsed = parse_line("x=ex y=it echo ok", &env).unwrap();
    assert_eq!(parsed.assignments.len(), 2);
    let cmd = &parsed.pipeline.unwrap().commands[0];
    assert_eq!(cmd.name, "echo");
    assert_eq!(cmd.args, vec!["ok"]);
}

#[test]
fn stops_parsing_assignments_on_invalid_name() {
    // `1x=...` is not a valid variable name, so the word is a command.
    let env = ShellEnv::new();
    let parsed = parse_line("1x=bad echo ok", &env).unwrap();
    assert!(parsed.assignments.is_empty());
    let cmd = &parsed.pipeline.unwrap().commands[0];
    assert_eq!(cmd.name, "1x=bad");
    assert_eq!(cmd.args, vec!["echo", "ok"]);
}

#[test]
fn errors_on_unclosed_quote_double() {
    let env = ShellEnv::new();
    let err = parse_line("echo \"oops", &env).unwrap_err();
    assert_eq!(err, ParseError::UnclosedQuote('"'));
}

#[test]
fn errors_on_unclosed_quote_single() {
    let env = ShellEnv::new();
    let err = parse_line("echo 'oops", &env).unwrap_err();
    assert_eq!(err, ParseError::UnclosedQuote('\''));
}

#[test]
fn expands_vars_outside_single_quotes() {
    let env = env_with(&[("FOO", "bar")]);
    let parsed = parse_line("echo $FOO \"$FOO\"", &env).unwrap();
    let cmd = &parsed.pipeline.unwrap().commands[0];
    assert_eq!(cmd.args, vec!["bar", "bar"]);
}

#[test]
fn expansion_outside_quotes_splits_on_whitespace_from_value() {
    let env = env_with(&[("FOO", "a b")]);
    let parsed = parse_line("echo $FOO", &env).unwrap();
    let cmd = &parsed.pipeline.unwrap().commands[0];
    assert_eq!(cmd.args, vec!["a", "b"]);
}

#[test]
fn expansion_inside_double_quotes_does_not_split_on_whitespace_from_value() {
    let env = env_with(&[("FOO", "a b")]);
    let parsed = parse_line("echo \"$FOO\"", &env).unwrap();
    let cmd = &parsed.pipeline.unwrap().commands[0];
    assert_eq!(cmd.args, vec!["a b"]);
}

#[test]
fn does_not_expand_in_single_quotes() {
    let env = env_with(&[("FOO", "bar")]);
    let parsed = parse_line("echo '$FOO'", &env).unwrap();
    let cmd = &parsed.pipeline.unwrap().commands[0];
    assert_eq!(cmd.args, vec!["$FOO"]);
}

#[test]
fn parses_pipelines() {
    let env = ShellEnv::new();
    let parsed = parse_line("echo hi | wc", &env).unwrap();
    let pipeline = parsed.pipeline.unwrap();
    assert_eq!(pipeline.commands.len(), 2);
    assert_eq!(pipeline.commands[0].name, "echo");
    assert_eq!(pipeline.commands[1].name, "wc");
}

#[test]
fn assignments_affect_expansion_later_in_line() {
    let env = ShellEnv::new();
    let parsed = parse_line("x=ex y=it echo $x$y", &env).unwrap();
    let cmd = &parsed.pipeline.unwrap().commands[0];
    assert_eq!(cmd.name, "echo");
    assert_eq!(cmd.args, vec!["exit"]);
}

#[test]
fn errors_on_empty_pipeline_segment() {
    let env = ShellEnv::new();
    let err = parse_line("echo hi | | wc", &env).unwrap_err();
    assert_eq!(err, ParseError::EmptyPipelineSegment);
}

#[test]
fn empty_command_name_is_a_parse_error() {
    // An empty word can be an argument, never a command name.
    let env = ShellEnv::new();
    let err = parse_line("\"\"", &env).unwrap_err();
    assert_eq!(err, ParseError::EmptyPipelineSegment);
    let err = parse_line("'' x", &env).unwrap_err();
    assert_eq!(err, ParseError::EmptyPipelineSegment);
    let err = parse_line("echo hi | \"\"", &env).unwrap_err();
    assert_eq!(err, ParseError::EmptyPipelineSegment);
    let err = parse_line("\"\" | wc", &env).unwrap_err();
    assert_eq!(err, ParseError::EmptyPipelineSegment);
}

#[test]
fn unknown_variable_expands_to_empty_string() {
    let env = ShellEnv::new();
    let parsed = parse_line("echo a$NOPE b", &env).unwrap();
    let cmd = &parsed.pipeline.unwrap().commands[0];
    assert_eq!(cmd.args, vec!["a", "b"]);
}

#[test]
fn lone_dollar_is_kept_literally() {
    let env = ShellEnv::new();
    let parsed = parse_line("echo $ $1", &env).unwrap();
    let cmd = &parsed.pipeline.unwrap().commands[0];
    assert_eq!(cmd.args, vec!["$", "$1"]);
}

#[test]
fn parse_error_messages_are_exact() {
    assert_eq!(ParseError::UnclosedQuote('"').message(), "unclosed quote: \"");
    assert_eq!(ParseError::EmptyPipelineSegment.message(), "empty pipeline segment");
}
