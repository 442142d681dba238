//! Direct tests of the smaller public pieces: the expansion pass, the
//! tokenizer, assignment words, variable names, counting and operands.

use minishell::builtins::{count_wc, file_operands, io_error_message, Builtin};
use minishell::env::ShellEnv;
use minishell::parser::{
    expand_line, parse_assignment, split_assignments_prefix, tokenize_with_pipes_and_quotes,
    try_read_var_name, Token,
};

#[test]
fn expand_line_substitutes_and_keeps_quotes() {
    let mut env = ShellEnv::new();
    env.set("FOO".to_string(), "bar".to_string());
    let out = expand_line("echo $FOO '$FOO'", &env).unwrap();
    assert_eq!(out, "echo bar '$FOO'");
}

#[test]
fn expand_line_sees_assignments_made_to_the_left() {
    let env = ShellEnv::new();
    let out = expand_line("A=1 B=$A echo $B", &env).unwrap();
    assert_eq!(out, "A=1 B=1 echo 1");
}

#[test]
fn tokenize_splits_words_pipes_and_drops_quotes() {
    let tokens = tokenize_with_pipes_and_quotes("a 'b c'|d").unwrap();
    assert_eq!(tokens.len(), 4);
    match &tokens[0] {
        Token::Word(w) => assert_eq!(w, "a"),
        Token::Pipe => panic!("expected a word"),
    }
    match &tokens[1] {
        Token::Word(w) => assert_eq!(w, "b c"),
        Token::Pipe => panic!("expected a word"),
    }
    assert!(matches!(tokens[2], Token::Pipe));
    match &tokens[3] {
        Token::Word(w) => assert_eq!(w, "d"),
        Token::Pipe => panic!("expected a word"),
    }
}

#[test]
fn parse_assignment_accepts_names_and_rejects_others() {
    assert_eq!(
        parse_assignment("A=b c"),
        Some(("A".to_string(), "b c".to_string()))
    );
    assert_eq!(
        parse_assignment("_x1="),
        Some(("_x1".to_string(), String::new()))
    );
    assert_eq!(parse_assignment("1x=bad"), None);
    assert_eq!(parse_assignment("=v"), None);
    assert_eq!(parse_assignment("plain"), None);
}

#[test]
fn try_read_var_name_takes_the_longest_name() {
    assert_eq!(try_read_var_name("ab1-", 0), Some("ab1".to_string()));
    assert_eq!(try_read_var_name("x", 0), Some("x".to_string()));
    assert_eq!(try_read_var_name("9a", 0), None);
    assert_eq!(try_read_var_name("ab", 2), None);
}

#[test]
fn split_assignments_prefix_stops_at_first_non_assignment() {
    let tokens = vec![
        Token::Word("A=1".to_string()),
        Token::Word("B=2".to_string()),
        Token::Word("echo".to_string()),
        Token::Word("C=3".to_string()),
    ];
    let (assignments, rest) = split_assignments_prefix(tokens);
    assert_eq!(
        assignments,
        vec![("A".to_string(), "1".to_string()), ("B".to_string(), "2".to_string())]
    );
    assert_eq!(rest.len(), 2);
    match &rest[0] {
        Token::Word(w) => assert_eq!(w, "echo"),
        Token::Pipe => panic!("expected a word"),
    }
}

#[test]
fn count_wc_reports_lines_words_and_bytes() {
    assert_eq!(count_wc(&b"a b\nc\n".to_vec()), (2, 3, 6));
    assert_eq!(count_wc(&Vec::new()), (0, 0, 0));
    assert_eq!(count_wc(&b"one".to_vec()), (1, 1, 3));
}

#[test]
fn io_error_message_strips_only_the_os_suffix() {
    assert_eq!(
        io_error_message("No such file or directory (os error 2)"),
        "No such file or directory"
    );
    assert_eq!(io_error_message("plain failure"), "plain failure");
}

#[test]
fn from_name_knows_exactly_the_builtins() {
    assert_eq!(Builtin::from_name("echo"), Some(Builtin::Echo));
    assert_eq!(Builtin::from_name("cat"), Some(Builtin::Cat));
    assert_eq!(Builtin::from_name("grep"), Some(Builtin::Grep));
    assert_eq!(Builtin::from_name("wc"), Some(Builtin::Wc));
    assert_eq!(Builtin::from_name("pwd"), Some(Builtin::Pwd));
    assert_eq!(Builtin::from_name("exit"), Some(Builtin::Exit));
    assert_eq!(Builtin::from_name("ls"), None);
    assert_eq!(Builtin::from_name(""), None);
}

#[test]
fn file_operands_follow_each_builtin() {
    let args = |xs: &[&str]| xs.iter().map(|s| s.to_string()).collect::<Vec<String>>();
    assert_eq!(file_operands(Builtin::Cat, &args(&["a", "b"])), args(&["a", "b"]));
    assert_eq!(file_operands(Builtin::Wc, &args(&["a"])), args(&["a"]));
    assert_eq!(file_operands(Builtin::Wc, &args(&["a", "b"])), Vec::<String>::new());
    assert_eq!(
        file_operands(Builtin::Grep, &args(&["-A", "1", "p", "f1", "f2"])),
        args(&["f1", "f2"])
    );
    assert_eq!(file_operands(Builtin::Grep, &args(&[])), Vec::<String>::new());
    assert_eq!(file_operands(Builtin::Echo, &args(&["a"])), Vec::<String>::new());
}
