//! One step of the interpreter loop: handling one input line, planning how
//! a pipeline runs, and merging what its stages produced.  The embedding
//! program performs the process spawning and pipe wiring these plans call
//! for.

use vstd::prelude::*;
use vstd::string::*;

use crate::builtins::{
    builtin_of, builtin_post, cwd_view, file_operands_spec, reads_view, run_builtin_with_input,
    Builtin, HostContext,
};
use crate::env::{apply_assignments_spec, ShellState};
use crate::parser::{parse_line, parse_line_spec};
use crate::text::{trim, trim_spec};
use crate::types::{BuiltinOutput, CommandSpec, Pipeline, ShellControl, ShellError};

verus! {

/// What handling one input line decided.
#[derive(Debug)]
pub enum LineOutcome {
    /// Nothing is left to run; the session goes on with this control value.
    Done(ShellControl),
    /// The line was rejected; the caller reports the error and goes on.
    Failed(ShellError),
    /// The line parsed to a pipeline that is now to be executed.
    Execute(Pipeline),
}

/// Handles one input line: trims it, parses it against the current
/// environment, applies its assignments, and hands back the pipeline to
/// run, if there is one.
pub fn run_single_line(state: &mut ShellState, line: &str) -> (r: LineOutcome)
    requires
        old(state).wf(),
    ensures
        final(state).wf(),
        ({
            let t = trim_spec(line@);
            if t.len() == 0 {
                &&& *final(state) == *old(state)
                &&& r matches LineOutcome::Done(c) && c == ShellControl::Continue(0)
            } else {
                match parse_line_spec(t, old(state).env.as_map()) {
                    Err(e) => {
                        &&& *final(state) == *old(state)
                        &&& r matches LineOutcome::Failed(se) && se matches ShellError::Parse(pe)
                            && pe == e
                    },
                    Ok(pl) => {
                        &&& final(state).env.as_map() == apply_assignments_spec(
                            old(state).env.as_map(),
                            pl.assignments,
                        )
                        &&& match pl.pipeline {
                            None => r matches LineOutcome::Done(c) && c == ShellControl::Continue(
                                0,
                            ),
                            Some(cmds) => r matches LineOutcome::Execute(p) && p@ == cmds
                                && p.wf(),
                        }
                    },
                }
            }
        }),
{
    let trimmed = trim(line);
    if trimmed.as_str().unicode_len() == 0 {
        return LineOutcome::Done(ShellControl::Continue(0));
    }
    let parsed = match parse_line(trimmed.as_str(), &state.env) {
        Ok(pl) => pl,
        Err(e) => {
            return LineOutcome::Failed(ShellError::Parse(e));
        },
    };
    state.apply_assignments(&parsed.assignments);
    match parsed.pipeline {
        None => LineOutcome::Done(ShellControl::Continue(0)),
        Some(pipeline) => LineOutcome::Execute(pipeline),
    }
}

/// Whether some stage is named `exit`.
pub open spec fn has_exit_stage(cmds: Seq<crate::types::CmdV>) -> bool {
    exists|i: int| 0 <= i < cmds.len() && (#[trigger] cmds[i]).name == "exit"@
}

/// How a pipeline is to be executed.
#[derive(Debug)]
pub enum PipelinePlan {
    /// One stage: run it directly, builtin or external.
    Single(CommandSpec),
    /// `exit` in a multi-stage pipeline: refused; the caller writes
    /// `exit_in_pipeline_message` to stderr and goes on with exit code 2.
    RejectExit,
    /// Two or more stages, none of them `exit`: wire them with pipes.
    Staged(Pipeline),
}

/// The message written when `exit` stands in a multi-stage pipeline.
pub fn exit_in_pipeline_message() -> (r: String)
    ensures
        r@ == "exit: cannot be used in pipeline\n"@,
{
    String::from_str("exit: cannot be used in pipeline\n")
}

/// Plans the execution of a parsed pipeline: a single stage runs directly;
/// a multi-stage pipeline holding `exit` is refused; any other multi-stage
/// pipeline is run with OS pipes.
pub fn run_pipeline(pipeline: Pipeline) -> (r: PipelinePlan)
    requires
        pipeline@.len() >= 1,
    ensures
        ({
            if pipeline@.len() == 1 {
                r matches PipelinePlan::Single(c) && c@ == pipeline@[0]
            } else if has_exit_stage(pipeline@) {
                r matches PipelinePlan::RejectExit
            } else {
                r matches PipelinePlan::Staged(p) && p@ == pipeline@
            }
        }),
{
    if pipeline.commands.len() == 1 {
        let mut cmds = pipeline.commands;
        let c = cmds.remove(0);
        return PipelinePlan::Single(c);
    }
    let n = pipeline.commands.len();
    let mut i: usize = 0;
    while i < n
        invariant
            0 <= i <= n,
            n == pipeline.commands@.len(),
            n >= 2,
            forall|k: int| 0 <= k < i ==> (#[trigger] pipeline@[k]).name != "exit"@,
        decreases n - i,
    {
        if crate::text::str_eq(pipeline.commands[i].name.as_str(), "exit") {
            proof {
                assert(pipeline@[i as int].name == "exit"@);
            }
            return PipelinePlan::RejectExit;
        }
        proof {
            assert(pipeline@[i as int] == pipeline.commands@[i as int]@);
        }
        i = i + 1;
    }
    PipelinePlan::Staged(pipeline)
}

/// Decides and, for a builtin, performs a single-stage command: a builtin
/// runs on the host's answers; an external command is left to the caller.
pub fn run_single_command(command: &CommandSpec, host: &HostContext) -> (r: Option<
    Result<BuiltinOutput, ShellError>,
>)
    requires
        host.reads@.len() == (match builtin_of(command.name@) {
            Some(b) => file_operands_spec(b, command.args.deep_view()).len(),
            None => 0,
        }),
    ensures
        match builtin_of(command.name@) {
            Some(b) => r matches Some(out) && builtin_post(
                b,
                command.args.deep_view(),
                None,
                cwd_view(&host.cwd),
                reads_view(host.reads@),
                out,
            ),
            None => r is None,
        },
{
    match Builtin::from_name(command.name.as_str()) {
        Some(b) => Some(run_builtin_with_input(b, &command.args, None, host)),
        None => None,
    }
}

// ---------------------------------------------------------------------------
// Merging multi-stage results
// ---------------------------------------------------------------------------
/// What one pipeline stage reported back: its exit code and its captured
/// stderr bytes.
#[derive(Debug)]
pub struct StageResult {
    pub exit_code: i32,
    pub stderr: Vec<u8>,
}

/// The stage stderr buffers joined in command order.
pub open spec fn stage_stderr_concat(rs: Seq<StageResult>) -> Seq<u8>
    decreases rs.len(),
{
    if rs.len() == 0 {
        Seq::empty()
    } else {
        stage_stderr_concat(rs.drop_last()) + rs.last().stderr@
    }
}

/// Merges what the stages of a multi-stage pipeline produced: the stage
/// stderr buffers concatenated in command order — whatever order the stages
/// finished in — then the last stage's stdout, and the last stage's exit
/// code as the pipeline's result.
pub fn merge_pipeline_results(results: &Vec<StageResult>, final_stdout: Vec<u8>) -> (r: (
    Vec<u8>,
    Vec<u8>,
    ShellControl,
))
    requires
        results@.len() >= 1,
    ensures
        r.0@ == stage_stderr_concat(results@),
        r.1@ == final_stdout@,
        r.2 == ShellControl::Continue(results@.last().exit_code),
{
    let n = results.len();
    let mut err: Vec<u8> = Vec::new();
    let mut i: usize = 0;
    proof {
        assert(err@ =~= stage_stderr_concat(results@.take(0)));
    }
    while i < n
        invariant
            0 <= i <= n,
            n == results@.len(),
            err@ == stage_stderr_concat(results@.take(i as int)),
        decreases n - i,
    {
        let ghost pre = results@.take(i as int);
        let ghost cur = results@.take(i as int + 1);
        proof {
            assert(cur.drop_last() =~= pre);
            assert(cur.last() == results@[i as int]);
        }
        crate::builtins::append_bytes(&mut err, &results[i].stderr);
        i = i + 1;
    }
    proof {
        assert(results@.take(n as int) =~= results@);
    }
    let code = results[n - 1].exit_code;
    (err, final_stdout, ShellControl::Continue(code))
}

/// Marks the executor that runs external programs.  The spawning itself is
/// operating-system work and happens outside this crate; the sessions here
/// only plan it.
#[derive(Debug)]
pub struct StdProcessExecutor;

impl StdProcessExecutor {
    /// Creates the external-process executor.
    pub fn new() -> (r: StdProcessExecutor) {
        StdProcessExecutor
    }
}

} // verus!
