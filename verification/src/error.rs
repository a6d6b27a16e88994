use crate::text::{
    join_strings, join_with, signed_decimal, signed_decimal_string, string_views, trim, trim_str,
};
use vstd::prelude::*;
use vstd::string::*;

verus! {

/// Everything that can make a command fail.
#[derive(Debug, Clone, PartialEq, Eq)]
pub enum AppError {
    /// Argument parsing stopped; `message` is what the parser rendered.
    Cli { message: String, exit_code: i32 },
    /// The command line was well formed but a value in it was not acceptable.
    Usage(String),
    /// A request that cannot be carried out in the current state.
    Message(String),
    /// An operating-system call failed; `source` is the system's description.
    Io { context: String, source: String },
    /// An external program ran and reported failure; `status` is its exit code, if it
    /// exited rather than being terminated by a signal.
    CommandFailed { program: String, args: Vec<String>, status: Option<i32>, stderr: String },
}

pub type AppResult<T> = Result<T, AppError>;

/// The mathematical content of an [`AppError`].
pub enum AppErrorView {
    Cli { message: Seq<char>, exit_code: i32 },
    Usage(Seq<char>),
    Message(Seq<char>),
    Io { context: Seq<char>, source: Seq<char> },
    CommandFailed {
        program: Seq<char>,
        args: Seq<Seq<char>>,
        status: Option<i32>,
        stderr: Seq<char>,
    },
}

impl View for AppError {
    type V = AppErrorView;

    open spec fn view(&self) -> AppErrorView {
        match self {
            AppError::Cli { message, exit_code } => AppErrorView::Cli {
                message: message@,
                exit_code: *exit_code,
            },
            AppError::Usage(message) => AppErrorView::Usage(message@),
            AppError::Message(message) => AppErrorView::Message(message@),
            AppError::Io { context, source } => AppErrorView::Io {
                context: context@,
                source: source@,
            },
            AppError::CommandFailed { program, args, status, stderr } => {
                AppErrorView::CommandFailed {
                    program: program@,
                    args: string_views(args@),
                    status: *status,
                    stderr: stderr@,
                }
            },
        }
    }
}

/// The view of a result whose success value has a view.
pub open spec fn result_view<T: View>(r: AppResult<T>) -> Result<T::V, AppErrorView> {
    match r {
        Ok(v) => Ok(v@),
        Err(e) => Err(e@),
    }
}

impl AppError {
    /// The process exit code that reports this error.
    pub open spec fn spec_exit_code(&self) -> i32 {
        match self {
            AppError::Cli { exit_code, .. } => *exit_code,
            AppError::Usage(_) => 2,
            AppError::Message(_) | AppError::Io { .. } | AppError::CommandFailed { .. } => 1,
        }
    }

    pub fn exit_code(&self) -> (r: i32)
        ensures
            r == self.spec_exit_code(),
    {
        match self {
            AppError::Cli { exit_code, .. } => *exit_code,
            AppError::Usage(_) => 2,
            AppError::Message(_) | AppError::Io { .. } | AppError::CommandFailed { .. } => 1,
        }
    }

    /// The text shown to the user for this error.
    pub open spec fn spec_render(&self) -> Seq<char> {
        match self {
            AppError::Cli { message, .. } => message@,
            AppError::Usage(message) => message@,
            AppError::Message(message) => message@,
            AppError::Io { context, source } => context@ + ": "@ + source@,
            AppError::CommandFailed { program, args, status, stderr } => {
                let rendered_args = if args@.len() == 0 {
                    Seq::<char>::empty()
                } else {
                    " "@ + join_with(string_views(args@), " "@)
                };
                let rendered_status = match status {
                    Some(code) => signed_decimal(*code as int),
                    None => "terminated by signal"@,
                };
                let head = "command failed: "@ + program@ + rendered_args + " (exit "@
                    + rendered_status + ")"@;
                if trim(stderr@).len() == 0 {
                    head
                } else {
                    head + ": "@ + trim(stderr@)
                }
            },
        }
    }

    /// Renders the error for the user.
    pub fn render(&self) -> (r: String)
        ensures
            r@ == self.spec_render(),
    {
        match self {
            AppError::Cli { message, .. } => message.clone(),
            AppError::Usage(message) => message.clone(),
            AppError::Message(message) => message.clone(),
            AppError::Io { context, source } => {
                let mut r = context.clone();
                r.append(": ");
                r.append(source.as_str());
                r
            },
            AppError::CommandFailed { program, args, status, stderr } => {
                let mut r = String::new();
                r.append("command failed: ");
                r.append(program.as_str());
                if args.len() > 0 {
                    r.append(" ");
                    let joined = join_strings(args, " ");
                    r.append(joined.as_str());
                }
                r.append(" (exit ");
                match status {
                    Some(code) => {
                        let rendered = signed_decimal_string(*code);
                        r.append(rendered.as_str());
                    },
                    None => {
                        r.append("terminated by signal");
                    },
                }
                r.append(")");
                let trimmed = trim_str(stderr.as_str());
                if trimmed.as_str().unicode_len() > 0 {
                    r.append(": ");
                    r.append(trimmed.as_str());
                }
                r
            },
        }
    }
}

} // verus!
