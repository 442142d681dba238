//! Tests for the builtin commands, driven through the dispatcher with
//! explicit host answers in place of real file reads.

use minishell::builtins::{run_builtin, run_builtin_with_input, Builtin, HostContext};
use minishell::types::ShellControl;

type Reads = Vec<Result<Vec<u8>, String>>;

fn missing_file_error() -> String {
    "No such file or directory (os error 2)".to_string()
}

fn run_io(
    builtin: Builtin,
    args: &[&str],
    stdin: Option<&[u8]>,
    reads: Reads,
) -> (ShellControl, String, String) {
    let args: Vec<String> = args.iter().map(|s| s.to_string()).collect();
    let host = HostContext { cwd: Ok(String::new()), reads };
    let result = match stdin {
        Some(bytes) => {
            let buf = bytes.to_vec();
            run_builtin_with_input(builtin, &args, Some(&buf), &host)
        }
        None => run_builtin(builtin, &args, &host),
    };
    let out = result.unwrap();
    (
        out.control,
        String::from_utf8_lossy(&out.stdout).to_string(),
        String::from_utf8_lossy(&out.stderr).to_string(),
    )
}

fn run(builtin: Builtin, args: &[&str]) -> (ShellControl, String, String) {
    run_io(builtin, args, None, vec![])
}

fn run_with_stdin(builtin: Builtin, args: &[&str], stdin: &[u8]) -> (ShellControl, String, String) {
    run_io(builtin, args, Some(stdin), vec![])
}

fn run_with_reads(builtin: Builtin, args: &[&str], reads: Reads) -> (ShellControl, String, String) {
    run_io(builtin, args, None, reads)
}

#[test]
fn echo_with_args_prints_joined() {
    let (control, out, err) = run(Builtin::Echo, &["hello", "world"]);
    assert_eq!(control, ShellControl::Continue(0));
    assert_eq!(out, "hello world\n");
    assert!(err.is_empty());
}

#[test]
fn echo_without_args_prints_newline() {
    let (control, out, err) = run(Builtin::Echo, &[]);
    assert_eq!(control, ShellControl::Continue(0));
    assert_eq!(out, "\n");
    assert!(err.is_empty());
}

#[test]
fn pwd_prints_the_host_directory() {
    let host = HostContext { cwd: Ok("/somewhere/nice".to_string()), reads: vec![] };
    let out = run_builtin(Builtin::Pwd, &vec![], &host).unwrap();
    assert_eq!(out.control, ShellControl::Continue(0));
    assert_eq!(String::from_utf8_lossy(&out.stdout), "/somewhere/nice\n");
    assert!(out.stderr.is_empty());
}

#[test]
fn pwd_failure_surfaces_as_io_error() {
    let host = HostContext { cwd: Err("permission denied".to_string()), reads: vec![] };
    let err = run_builtin(Builtin::Pwd, &vec![], &host).unwrap_err();
    assert_eq!(err.message(), "I/O error: permission denied");
}

#[test]
fn exit_without_args_is_zero() {
    let (control, out, err) = run(Builtin::Exit, &[]);
    assert_eq!(control, ShellControl::Exit(0));
    assert!(out.is_empty());
    assert!(err.is_empty());
}

#[test]
fn exit_with_number_uses_it() {
    let (control, out, err) = run(Builtin::Exit, &["7"]);
    assert_eq!(control, ShellControl::Exit(7));
    assert!(out.is_empty());
    assert!(err.is_empty());
}

#[test]
fn exit_with_invalid_arg_defaults_to_zero() {
    let (control, _out, _err) = run(Builtin::Exit, &["nope"]);
    assert_eq!(control, ShellControl::Exit(0));
}

#[test]
fn exit_handles_extreme_codes() {
    let (control, _, _) = run(Builtin::Exit, &["2147483647"]);
    assert_eq!(control, ShellControl::Exit(2147483647));
    let (control, _, _) = run(Builtin::Exit, &["-2147483648"]);
    assert_eq!(control, ShellControl::Exit(-2147483648));
    let (control, _, _) = run(Builtin::Exit, &["2147483648"]);
    assert_eq!(control, ShellControl::Exit(0));
    let (control, _, _) = run(Builtin::Exit, &["+12"]);
    assert_eq!(control, ShellControl::Exit(12));
}

#[test]
fn cat_missing_operand_is_error() {
    let (control, out, err) = run(Builtin::Cat, &[]);
    assert_eq!(control, ShellControl::Continue(2));
    assert!(out.is_empty());
    assert!(err.to_lowercase().contains("missing"));
}

#[test]
fn builtins_cat_prints_file_contents() {
    let (control, out, err) = run_with_reads(Builtin::Cat, &["f"], vec![Ok(b"hello\n".to_vec())]);
    assert_eq!(control, ShellControl::Continue(0));
    assert_eq!(out, "hello\n");
    assert!(err.is_empty());
}

#[test]
fn cat_nonexistent_file_sets_exit_code_1() {
    let (control, out, err) = run_with_reads(
        Builtin::Cat,
        &["definitely-not-a-real-file-12345.txt"],
        vec![Err(missing_file_error())],
    );
    assert_eq!(control, ShellControl::Continue(1));
    assert!(out.is_empty());
    assert!(err.starts_with("cat:"));
    assert!(!err.to_lowercase().contains("os error"));
}

#[test]
fn cat_continues_after_a_failed_file() {
    let (control, out, err) = run_with_reads(
        Builtin::Cat,
        &["a", "missing", "b"],
        vec![Ok(b"one\n".to_vec()), Err(missing_file_error()), Ok(b"two\n".to_vec())],
    );
    assert_eq!(control, ShellControl::Continue(1));
    assert_eq!(out, "one\ntwo\n");
    assert_eq!(err, "cat: missing: No such file or directory\n");
}

#[test]
fn wc_requires_exactly_one_arg() {
    let (control, out, err) = run(Builtin::Wc, &[]);
    assert_eq!(control, ShellControl::Continue(2));
    assert!(out.is_empty());
    assert!(err.contains("wc: missing file operand"));

    let (control, out, err) = run(Builtin::Wc, &["a", "b"]);
    assert_eq!(control, ShellControl::Continue(2));
    assert!(out.is_empty());
    assert!(err.contains("wc: expected exactly one file path"));
}

#[test]
fn builtins_wc_counts_lines_words_bytes() {
    let (control, out, err) = run_with_reads(Builtin::Wc, &["f"], vec![Ok(b"a b\nc\n".to_vec())]);
    assert_eq!(control, ShellControl::Continue(0));
    assert_eq!(out.trim_end(), "2 3 6");
    assert!(err.is_empty());
}

#[test]
fn wc_nonexistent_file_sets_exit_code_1() {
    let (control, out, err) = run_with_reads(
        Builtin::Wc,
        &["definitely-not-a-real-file-12345.txt"],
        vec![Err(missing_file_error())],
    );
    assert_eq!(control, ShellControl::Continue(1));
    assert!(out.is_empty());
    assert!(err.starts_with("wc:"));
    assert!(!err.to_lowercase().contains("os error"));
}

#[test]
fn wc_of_zero_byte_file_is_all_zeros() {
    let (control, out, _) = run_with_reads(Builtin::Wc, &["f"], vec![Ok(vec![])]);
    assert_eq!(control, ShellControl::Continue(0));
    assert_eq!(out, "0 0 0\n");
}

#[test]
fn wc_counts_tabs_and_bare_carriage_returns() {
    // A lone CR terminates a line, and tabs separate words.
    let (control, out, _) = run_with_reads(Builtin::Wc, &["f"], vec![Ok(b"a\tb\rc".to_vec())]);
    assert_eq!(control, ShellControl::Continue(0));
    assert_eq!(out, "2 3 5\n");
}

#[test]
fn wc_counts_invalid_utf8_lossily() {
    let (control, out, _) = run_with_reads(Builtin::Wc, &["f"], vec![Ok(vec![0xFF, 0x0A])]);
    assert_eq!(control, ShellControl::Continue(0));
    // the invalid byte decodes to one replacement character: one word
    assert_eq!(out, "1 1 2\n");
}

#[test]
fn grep_basic_regex_prints_matching_lines() {
    let (control, out, err) = run_with_reads(
        Builtin::Grep,
        &["a", "f"],
        vec![Ok(b"alpha\nBravo\ncharlie\n".to_vec())],
    );
    assert_eq!(control, ShellControl::Continue(0));
    assert_eq!(out, "alpha\nBravo\ncharlie\n");
    assert!(err.is_empty());
}

#[test]
fn grep_case_insensitive_matches() {
    let (control, out, err) = run_with_reads(
        Builtin::Grep,
        &["-i", "minimal", "f"],
        vec![Ok(b"MiNiMaL\n".to_vec())],
    );
    assert_eq!(control, ShellControl::Continue(0));
    assert_eq!(out, "MiNiMaL\n");
    assert!(err.is_empty());
}

#[test]
fn grep_whole_word_does_not_match_substrings() {
    let (control, out, err) = run_with_reads(
        Builtin::Grep,
        &["-w", "foo", "f"],
        vec![Ok(b"foobar\nfoo\n".to_vec())],
    );
    assert_eq!(control, ShellControl::Continue(0));
    assert_eq!(out, "foo\n");
    assert!(err.is_empty());
}

#[test]
fn grep_after_context_prints_following_lines() {
    let (control, out, err) = run_with_reads(
        Builtin::Grep,
        &["-A", "1", "MATCH", "f"],
        vec![Ok(b"0\n1\nMATCH\n3\n4\n".to_vec())],
    );
    assert_eq!(control, ShellControl::Continue(0));
    assert_eq!(out, "MATCH\n3\n");
    assert!(err.is_empty());
}

#[test]
fn grep_after_context_overlaps_do_not_duplicate_lines() {
    let (control, out, err) = run_with_reads(
        Builtin::Grep,
        &["-A", "1", "MATCH", "f"],
        vec![Ok(b"a\nMATCH\nMATCH\nd\n".to_vec())],
    );
    assert_eq!(control, ShellControl::Continue(0));
    assert_eq!(out, "MATCH\nMATCH\nd\n");
    assert!(err.is_empty());
}

#[test]
fn grep_invalid_regex_is_error() {
    let (control, out, err) =
        run_with_reads(Builtin::Grep, &["[", "f"], vec![Ok(b"hello\n".to_vec())]);
    assert_eq!(control, ShellControl::Continue(2));
    assert!(out.is_empty());
    assert!(err.to_lowercase().contains("invalid regex"));
}

#[test]
fn grep_can_read_from_stdin_when_no_file_operand() {
    let (control, out, err) = run_with_stdin(Builtin::Grep, &["foo"], b"foo\nbar\n");
    assert_eq!(control, ShellControl::Continue(0));
    assert_eq!(out, "foo\n");
    assert!(err.is_empty());
}

#[test]
fn grep_without_stdin_or_files_demands_an_operand() {
    let (control, out, err) = run(Builtin::Grep, &["foo"]);
    assert_eq!(control, ShellControl::Continue(2));
    assert!(out.is_empty());
    assert!(err.contains("grep: missing file operand"));
}

#[test]
fn grep_missing_pattern_is_an_argument_error() {
    let (control, out, err) = run(Builtin::Grep, &["-i"]);
    assert_eq!(control, ShellControl::Continue(2));
    assert!(out.is_empty());
    assert!(err.contains("grep: missing pattern"));
}

#[test]
fn grep_bad_after_value_is_an_argument_error() {
    let (control, _, err) = run(Builtin::Grep, &["-A", "x", "foo"]);
    assert_eq!(control, ShellControl::Continue(2));
    assert!(err.contains("invalid value for -A"));

    let (control, _, err) = run(Builtin::Grep, &["-A"]);
    assert_eq!(control, ShellControl::Continue(2));
    assert!(err.contains("missing value for -A"));
}

#[test]
fn grep_supports_multiple_files_and_prefixes_each_line() {
    let (control, out, err) = run_with_reads(
        Builtin::Grep,
        &["MATCH", "f1", "f2"],
        vec![Ok(b"x\nMATCH\n".to_vec()), Ok(b"MATCH\ny\n".to_vec())],
    );
    assert_eq!(control, ShellControl::Continue(0));
    assert_eq!(out, format!("{}:MATCH\n{}:MATCH\n", "f1", "f2"));
    assert!(err.is_empty());
}

#[test]
fn grep_multiple_files_returns_error_code_if_any_file_missing() {
    let (control, out, err) = run_with_reads(
        Builtin::Grep,
        &["MATCH", "f1", "definitely-not-a-real-file-12345.txt"],
        vec![Ok(b"MATCH\n".to_vec()), Err(missing_file_error())],
    );
    assert_eq!(control, ShellControl::Continue(2));
    assert!(out.contains("f1:MATCH\n"));
    assert!(err.starts_with("grep:"));
}

#[test]
fn grep_whole_word_respects_unicode_word_characters() {
    // `é` is alphanumeric, so `fooé` does not end the word `foo`;
    // a comma does.
    let (control, out, _) = run_with_reads(
        Builtin::Grep,
        &["-w", "foo", "f"],
        vec![Ok("foo\u{e9}\nfoo,bar\n".as_bytes().to_vec())],
    );
    assert_eq!(control, ShellControl::Continue(0));
    assert_eq!(out, "foo,bar\n");
}

#[test]
fn grep_no_match_exits_one() {
    let (control, out, err) = run_with_reads(
        Builtin::Grep,
        &["zzz", "f"],
        vec![Ok(b"aaa\nbbb\n".to_vec())],
    );
    assert_eq!(control, ShellControl::Continue(1));
    assert!(out.is_empty());
    assert!(err.is_empty());
}
