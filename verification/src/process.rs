use crate::error::{result_view, AppError, AppErrorView, AppResult};
use crate::text::string_views;
use vstd::prelude::*;
use vstd::string::*;

verus! {

/// What running `program` with `args` to capture its output amounts to, given its exit code
/// (`None` when a signal ended it), standard output and standard error: the output when it
/// exited with code 0, else a failure that records all of it.
pub open spec fn capture_result(
    program: Seq<char>,
    args: Seq<Seq<char>>,
    status: Option<i32>,
    stdout: Seq<char>,
    stderr: Seq<char>,
) -> Result<Seq<char>, AppErrorView> {
    if status == Some(0i32) {
        Ok(stdout)
    } else {
        Err(AppErrorView::CommandFailed { program, args, status, stderr })
    }
}

/// The result of a command run for its output.
pub fn capture_outcome(
    program: &str,
    args: &Vec<String>,
    status: Option<i32>,
    stdout: String,
    stderr: String,
) -> (r: AppResult<String>)
    ensures
        result_view(r) == capture_result(program@, string_views(args@), status, stdout@, stderr@),
{
    match status {
        Some(0) => Ok(stdout),
        _ => Err(
            AppError::CommandFailed {
                program: program.to_owned(),
                args: args.clone(),
                status,
                stderr,
            },
        ),
    }
}

/// The result of a command run attached to the terminal: success for exit code 0, else a
/// failure with no captured error output.
pub fn interactive_outcome(program: &str, args: &Vec<String>, status: Option<i32>) -> (r: AppResult<()>)
    ensures
        match r {
            Ok(_) => status == Some(0i32),
            Err(e) => status != Some(0i32) && e@ == (AppErrorView::CommandFailed {
                program: program@,
                args: string_views(args@),
                status,
                stderr: Seq::empty(),
            }),
        },
{
    match status {
        Some(0) => Ok(()),
        _ => Err(
            AppError::CommandFailed {
                program: program.to_owned(),
                args: args.clone(),
                status,
                stderr: String::new(),
            },
        ),
    }
}

} // verus!
