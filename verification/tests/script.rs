//! End-to-end tests over a small driver that runs builtin-only scripts the
//! way the interpreter does: one line at a time, pipelines stage by stage,
//! with an in-memory file system standing in for the host.

use minishell::builtins::{file_operands, run_builtin_with_input, Builtin, HostContext};
use minishell::env::ShellState;
use minishell::session::{
    exit_in_pipeline_message, merge_pipeline_results, run_pipeline, run_single_command,
    run_single_line, LineOutcome, PipelinePlan, StageResult,
};
use minishell::types::{CommandSpec, ShellControl};

type Fs<'a> = [(&'a str, &'a [u8])];

fn read_file(fs: &Fs<'_>, path: &str) -> Result<Vec<u8>, String> {
    for (p, bytes) in fs {
        if *p == path {
            return Ok(bytes.to_vec());
        }
    }
    Err("No such file or directory (os error 2)".to_string())
}

fn host_for(fs: &Fs<'_>, builtin: Builtin, args: &Vec<String>) -> HostContext {
    let paths = file_operands(builtin, args);
    let reads = paths.iter().map(|p| read_file(fs, p)).collect();
    HostContext { cwd: Ok("/".to_string()), reads }
}

fn run_stage(
    fs: &Fs<'_>,
    cmd: &CommandSpec,
    stdin: Option<&Vec<u8>>,
) -> (i32, Vec<u8>, Vec<u8>) {
    let builtin = Builtin::from_name(&cmd.name).expect("script stages must be builtins");
    let host = host_for(fs, builtin, &cmd.args);
    let out = run_builtin_with_input(builtin, &cmd.args, stdin, &host).unwrap();
    let code = match out.control {
        ShellControl::Continue(c) => c,
        ShellControl::Exit(c) => c,
    };
    (code, out.stdout, out.stderr)
}

/// Runs a builtin-only script as the interpreter would and returns its exit
/// code, stdout and stderr.
fn run_script(input: &str, fs: &Fs<'_>) -> (i32, String, String) {
    let mut state = ShellState::from_pairs(&vec![]);
    let mut out: Vec<u8> = Vec::new();
    let mut err: Vec<u8> = Vec::new();
    let done = |out: &[u8], err: &[u8], code: i32| {
        (
            code,
            String::from_utf8_lossy(out).to_string(),
            String::from_utf8_lossy(err).to_string(),
        )
    };
    for line in input.lines() {
        match run_single_line(&mut state, line) {
            LineOutcome::Done(_) => {}
            LineOutcome::Failed(e) => {
                err.extend(e.message().into_bytes());
                err.push(b'\n');
            }
            LineOutcome::Execute(pipeline) => match run_pipeline(pipeline) {
                PipelinePlan::Single(cmd) => {
                    let builtin = Builtin::from_name(&cmd.name);
                    match builtin {
                        Some(b) => {
                            let host = host_for(fs, b, &cmd.args);
                            match run_single_command(&cmd, &host) {
                                Some(Ok(o)) => {
                                    out.extend(o.stdout);
                                    err.extend(o.stderr);
                                    if let ShellControl::Exit(code) = o.control {
                                        return done(&out, &err, code);
                                    }
                                }
                                Some(Err(e)) => {
                                    err.extend(e.message().into_bytes());
                                    err.push(b'\n');
                                }
                                None => unreachable!(),
                            }
                        }
                        None => panic!("script commands must be builtins"),
                    }
                }
                PipelinePlan::RejectExit => {
                    err.extend(exit_in_pipeline_message().into_bytes());
                }
                PipelinePlan::Staged(pipeline) => {
                    let n = pipeline.commands.len();
                    let mut results: Vec<StageResult> = Vec::new();
                    let mut carried: Option<Vec<u8>> = None;
                    let mut last_stdout: Vec<u8> = Vec::new();
                    for (idx, cmd) in pipeline.commands.iter().enumerate() {
                        let (code, stage_out, stage_err) = run_stage(fs, cmd, carried.as_ref());
                        results.push(StageResult { exit_code: code, stderr: stage_err });
                        if idx + 1 == n {
                            last_stdout = stage_out;
                        } else {
                            carried = Some(stage_out);
                        }
                    }
                    let (merged_err, merged_out, _control) =
                        merge_pipeline_results(&results, last_stdout);
                    err.extend(merged_err);
                    out.extend(merged_out);
                }
            },
        }
    }
    done(&out, &err, 0)
}

#[test]
fn script_echo_then_exit_prints_and_stops() {
    let (code, out, err) = run_script("echo hello world\nexit\n", &[]);
    assert_eq!(code, 0);
    assert_eq!(out.lines().next().unwrap(), "hello world");
    assert!(err.is_empty());
}

#[test]
fn script_exit_seven_sets_the_code() {
    let (code, _out, _err) = run_script("exit 7\n", &[]);
    assert_eq!(code, 7);
}

#[test]
fn script_echo_pipe_wc_counts_the_echo() {
    let (code, out, err) = run_script("echo 123 | wc\nexit\n", &[]);
    assert_eq!(code, 0);
    assert_eq!(out.lines().next().unwrap(), "1 1 4");
    assert!(err.is_empty());
}

#[test]
fn script_echo_through_cat_is_unchanged() {
    let (code, out, err) = run_script("echo a b | cat\nexit\n", &[]);
    assert_eq!(code, 0);
    assert_eq!(out, "a b\n");
    assert!(err.is_empty());
}

#[test]
fn script_cat_forwards_stdin_in_pipeline() {
    let (_code, out, err) = run_script("echo hi | cat | wc\nexit\n", &[]);
    assert_eq!(out.lines().next().unwrap(), "1 1 3");
    assert!(err.is_empty());
}

#[test]
fn script_assignments_expand_on_the_same_line() {
    let (_code, out, err) = run_script("x=ex y=it echo $x$y\nexit\n", &[]);
    assert_eq!(out.lines().next().unwrap(), "exit");
    assert!(err.is_empty());
}

#[test]
fn script_empty_pipeline_segment_reports_parse_error() {
    let (code, _out, err) = run_script("echo hi | | wc\nexit\n", &[]);
    assert_eq!(code, 0);
    assert!(err.contains("Parse error"));
    assert!(err.contains("empty pipeline segment"));
}

#[test]
fn script_exit_in_pipeline_is_rejected() {
    let (code, _out, err) = run_script("echo hi | exit\nexit\n", &[]);
    assert_eq!(code, 0);
    assert!(err.contains("exit: cannot be used in pipeline"));
}

#[test]
fn script_cat_file_through_wc_matches_wc_on_the_file() {
    let fs: &Fs<'_> = &[("notes.txt", b"a b\nc\n")];
    let (_code, piped, err1) = run_script("cat notes.txt | wc\nexit\n", fs);
    let (_code2, direct, err2) = run_script("wc notes.txt\nexit\n", fs);
    assert_eq!(piped, direct);
    assert_eq!(piped.lines().next().unwrap(), "2 3 6");
    assert!(err1.is_empty());
    assert!(err2.is_empty());
}

#[test]
fn script_grep_reads_files_from_the_host() {
    let fs: &Fs<'_> = &[("log", b"a\nMATCH\nMATCH\nd\n")];
    let (code, out, err) = run_script("grep -A 1 MATCH log\nexit\n", fs);
    assert_eq!(code, 0);
    assert_eq!(out, "MATCH\nMATCH\nd\n");
    assert!(err.is_empty());
}

#[test]
fn script_stage_stderr_is_merged_in_command_order() {
    // The first stage fails loudly, the second counts nothing: the error
    // line of stage one precedes any output, and the pipeline's code is the
    // last stage's.
    let (code, out, err) = run_script("cat nope | wc\nexit\n", &[]);
    assert_eq!(code, 0);
    assert_eq!(err.lines().next().unwrap(), "cat: nope: No such file or directory");
    assert_eq!(out.lines().next().unwrap(), "0 0 0");
}

#[test]
fn merge_returns_last_stage_code_and_ordered_stderr() {
    let results = vec![
        StageResult { exit_code: 3, stderr: b"first ".to_vec() },
        StageResult { exit_code: 0, stderr: b"second ".to_vec() },
        StageResult { exit_code: 5, stderr: b"third".to_vec() },
    ];
    let (err, out, control) = merge_pipeline_results(&results, b"payload".to_vec());
    assert_eq!(err, b"first second third".to_vec());
    assert_eq!(out, b"payload".to_vec());
    assert_eq!(control, ShellControl::Continue(5));
}
